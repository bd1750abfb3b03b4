//! The parts of `std::path` the library uses, on paths held as strings.
use vstd::prelude::*;

verus! {

/// A piece between two `/` of a path that is a component of it on Unix: not
/// empty (as between repeated or after a trailing `/`) and not `.` (which
/// `Path` drops, but at the start, where it is no name either).
pub open spec fn is_named_piece(piece: Seq<char>) -> bool {
    piece.len() > 0 && piece != seq!['.']
}

/// The last of `pieces` that names a component.
pub open spec fn last_named_piece(pieces: Seq<Seq<char>>) -> Option<Seq<char>>
    decreases pieces.len(),
{
    if pieces.len() == 0 {
        None
    } else if is_named_piece(pieces.last()) {
        Some(pieces.last())
    } else {
        last_named_piece(pieces.drop_last())
    }
}

/// The last component of `p` where it is a name (`Path::file_name` on
/// Unix): none where the path is empty, a root or `.`, or ends in `..`.
pub open spec fn path_file_name(p: Seq<char>) -> Option<Seq<char>> {
    match last_named_piece(crate::text::split_on(p, '/')) {
        Some(n) => if n == seq!['.', '.'] {
            None
        } else {
            Some(n)
        },
        None => None,
    }
}

/// The place of the last `.` in `n`.
pub open spec fn last_dot(n: Seq<char>) -> Option<int>
    decreases n.len(),
{
    if n.len() == 0 {
        None
    } else if n.last() == '.' {
        Some(n.len() - 1)
    } else {
        last_dot(n.drop_last())
    }
}

/// What `Path::parent` returns for `p`: the path without its last component,
/// `None` for a root or an empty path.
pub uninterp spec fn path_parent(p: Seq<char>) -> Option<Seq<char>>;

/// The extension of the file name of `p` (`Path::extension`): what follows
/// its last `.`, where that is not its first character.
pub open spec fn path_extension(p: Seq<char>) -> Option<Seq<char>> {
    match path_file_name(p) {
        None => None,
        Some(n) => match last_dot(n) {
            Some(i) => if i == 0 {
                None
            } else {
                Some(n.skip(i + 1))
            },
            None => None,
        },
    }
}

/// The file name of `p` without its extension (`Path::file_stem`).
pub open spec fn path_file_stem(p: Seq<char>) -> Option<Seq<char>> {
    match path_file_name(p) {
        None => None,
        Some(n) => match last_dot(n) {
            Some(i) => if i == 0 {
                Some(n)
            } else {
                Some(n.take(i))
            },
            None => Some(n),
        },
    }
}

/// `rest` appended to the path `base` as `Path::join` does on Unix: an
/// absolute `rest` replaces `base`; otherwise a `/` goes between them where
/// `base` is not empty and does not end in one.
pub open spec fn path_join(base: Seq<char>, rest: Seq<char>) -> Seq<char> {
    if rest.len() > 0 && rest[0] == '/' {
        rest
    } else if base.len() > 0 && base.last() != '/' {
        base + seq!['/'] + rest
    } else {
        base + rest
    }
}

/// What `Path::strip_prefix` returns for `path` and `base`: the rest of
/// `path` after the components of `base`, `None` where `base` is not a prefix.
pub uninterp spec fn path_strip_prefix(path: Seq<char>, base: Seq<char>) -> Option<Seq<char>>;

/// Whether `Path::new(a) == Path::new(b)`: the two paths have the same
/// components, so that `/a//b/` and `/a/b` are the same path.
pub uninterp spec fn path_same(a: Seq<char>, b: Seq<char>) -> bool;

/// On Unix a path is absolute where it begins with the root `/`
/// (`Path::is_absolute`).
pub open spec fn absolute(p: Seq<char>) -> bool {
    p.len() > 0 && p[0] == '/'
}

/// Whether `p` is absolute (`Path::is_absolute` on Unix).
pub fn is_absolute(p: &str) -> (r: bool)
    ensures
        r == absolute(p@),
{
    let cs = crate::text::chars_of(p);
    cs.len() > 0 && cs[0] == '/'
}

/// `path` without the leading components `base` (`Path::strip_prefix`). Its
/// result is named `path_strip_prefix`; the component rules are not restated.
#[verifier::external_body]
pub(crate) fn strip_prefix(path: &str, base: &str) -> (r: Option<String>)
    ensures
        r matches Some(n) ==> path_strip_prefix(path@, base@) == Some(n@),
        r is None ==> path_strip_prefix(path@, base@) is None,
{
    std::path::Path::new(path).strip_prefix(base).ok().map(|n| n.to_string_lossy().into_owned())
}

/// Whether `a` and `b` are the same path (`Path`'s `==`, which compares
/// components). Its result is named `path_same`; the contract adds only that
/// the same text is the same path, as its components are then the same. The
/// component rules are not restated.
#[verifier::external_body]
pub(crate) fn same_path(a: &str, b: &str) -> (r: bool)
    ensures
        r == path_same(a@, b@),
        a@ == b@ ==> r,
{
    std::path::Path::new(a) == std::path::Path::new(b)
}

/// The last component of `p` where it is a name (`Path::file_name`).
pub fn file_name(p: &str) -> (r: Option<String>)
    ensures
        r matches Some(n) ==> path_file_name(p@) == Some(n@),
        r is None ==> path_file_name(p@) is None,
{
    let cs = crate::text::chars_of(p);
    let pieces = crate::text::split_chars(&cs, '/');
    let ghost v = crate::text::chars_list_view(pieces@);
    assert(v == crate::text::split_on(p@, '/'));
    let mut i: usize = pieces.len();
    assert(v.take(i as int) =~= v);
    while i > 0
        invariant
            i <= pieces.len(),
            v == crate::text::chars_list_view(pieces@),
            v == crate::text::split_on(p@, '/'),
            last_named_piece(v.take(i as int)) == last_named_piece(v),
        decreases i,
    {
        let piece = &pieces[i - 1];
        assert(v.take(i as int).last() == piece@);
        assert(v.take(i as int).drop_last() =~= v.take(i - 1));
        if piece.len() > 0 && !(piece.len() == 1 && piece[0] == '.') {
            assert(piece@ != seq!['.'] ) by {
                if piece@ == seq!['.'] {
                    assert(piece@.len() == 1 && piece@[0] == '.');
                }
            }
            if piece.len() == 2 && piece[0] == '.' && piece[1] == '.' {
                assert(piece@ =~= seq!['.', '.']);
                return None;
            }
            assert(piece@ != seq!['.', '.']) by {
                if piece@ == seq!['.', '.'] {
                    assert(piece@[0] == '.' && piece@[1] == '.');
                }
            }
            return Some(crate::text::string_of(piece));
        }
        assert(!is_named_piece(piece@)) by {
            if piece.len() == 1 && piece[0] == '.' {
                assert(piece@ =~= seq!['.']);
            }
        }
        i = i - 1;
    }
    None
}

/// The place of the last `.` in `n`.
fn find_last_dot(n: &Vec<char>) -> (r: Option<usize>)
    ensures
        match r {
            Some(i) => last_dot(n@) == Some(i as int) && i < n@.len(),
            None => last_dot(n@) is None,
        },
{
    let mut i: usize = n.len();
    assert(n@.take(i as int) =~= n@);
    while i > 0
        invariant
            i <= n.len(),
            last_dot(n@.take(i as int)) == last_dot(n@),
        decreases i,
    {
        assert(n@.take(i as int).last() == n@[i - 1]);
        assert(n@.take(i as int).drop_last() =~= n@.take(i - 1));
        if n[i - 1] == '.' {
            return Some(i - 1);
        }
        i = i - 1;
    }
    None
}

/// The parent of `p` (`Path::parent`). Its result is named `path_parent`.
#[verifier::external_body]
pub(crate) fn parent(p: &str) -> (r: Option<String>)
    ensures
        r matches Some(n) ==> path_parent(p@) == Some(n@),
        r is None ==> path_parent(p@) is None,
{
    std::path::Path::new(p).parent().map(|n| n.to_string_lossy().into_owned())
}

/// The extension of the file name of `p` (`Path::extension`).
pub fn extension(p: &str) -> (r: Option<String>)
    ensures
        r matches Some(n) ==> path_extension(p@) == Some(n@),
        r is None ==> path_extension(p@) is None,
{
    let name = match file_name(p) {
        Some(n) => n,
        None => return None,
    };
    let cs = crate::text::chars_of(name.as_str());
    match find_last_dot(&cs) {
        Some(i) => if i == 0 {
            None
        } else {
            let e = crate::text::slice_chars(&cs, i + 1, cs.len());
            assert(e@ =~= cs@.skip(i + 1));
            Some(crate::text::string_of(&e))
        },
        None => None,
    }
}

/// The file name of `p` without its extension (`Path::file_stem`).
pub fn file_stem(p: &str) -> (r: Option<String>)
    ensures
        r matches Some(n) ==> path_file_stem(p@) == Some(n@),
        r is None ==> path_file_stem(p@) is None,
{
    let name = match file_name(p) {
        Some(n) => n,
        None => return None,
    };
    let cs = crate::text::chars_of(name.as_str());
    match find_last_dot(&cs) {
        Some(i) => if i == 0 {
            Some(name)
        } else {
            let st = crate::text::slice_chars(&cs, 0, i);
            assert(st@ =~= cs@.take(i as int));
            Some(crate::text::string_of(&st))
        },
        None => Some(name),
    }
}

/// `rest` appended to the path `base` (as `Path::join` on Unix).
pub fn join(base: &str, rest: &str) -> (r: String)
    ensures
        r@ == path_join(base@, rest@),
{
    let b = crate::text::chars_of(base);
    let t = crate::text::chars_of(rest);
    if t.len() > 0 && t[0] == '/' {
        return rest.to_string();
    }
    let mut out = base.to_string();
    if b.len() > 0 && b[b.len() - 1] != '/' {
        crate::text::push_char(&mut out, '/');
    }
    let mut i: usize = 0;
    let ghost start = out@;
    while i < t.len()
        invariant
            i <= t.len(),
            t@ == rest@,
            out@ == start + t@.take(i as int),
        decreases t.len() - i,
    {
        crate::text::push_char(&mut out, t[i]);
        i = i + 1;
        assert(out@ =~= start + t@.take(i as int));
    }
    assert(t@.take(i as int) =~= t@);
    out
}

} // verus!
