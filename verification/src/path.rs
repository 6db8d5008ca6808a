//! Paths as text: their components, as `std::path` splits them, and Unix-style joining.

use vstd::prelude::*;

use std::path::Component;

use crate::text::{append_chars, chars_of, starts_with};

verus! {

/// Kinds of path components, in the order of `std::path::Component`'s variants.
pub const COMPONENT_PREFIX: u8 = 0;

pub const COMPONENT_ROOT_DIR: u8 = 1;

pub const COMPONENT_CUR_DIR: u8 = 2;

pub const COMPONENT_PARENT_DIR: u8 = 3;

pub const COMPONENT_NORMAL: u8 = 4;

/// A component of a path: its kind and, for a prefix or a normal component, its text.
#[derive(Debug, PartialEq, Eq)]
pub struct PathComponent {
    pub kind: u8,
    pub text: String,
}

/// What `std::path::Path::components` yields for a path, each component as its kind and
/// its text. Its value is determined by the path alone.
pub uninterp spec fn path_components(path: Seq<char>) -> Seq<(u8, Seq<char>)>;

pub open spec fn component_views(v: Seq<PathComponent>) -> Seq<(u8, Seq<char>)> {
    v.map_values(|c: PathComponent| (c.kind, c.text@))
}

/// Calls `std::path::Path::components` and records each component's kind and text.
///
/// Trusted: the result is `path_components` of the path, each kind below 5; the text of a
/// normal or prefix component is its lossless string form (the path is UTF-8 already).
#[verifier::external_body]
pub fn components_of(path: &str) -> (res: Vec<PathComponent>)
    ensures
        component_views(res@) == path_components(path@),
        forall|i: int| 0 <= i < res@.len() ==> #[trigger] res@[i].kind <= COMPONENT_NORMAL,
{
    std::path::Path::new(path).components().map(|c| match c {
        Component::Prefix(p) => PathComponent { kind: COMPONENT_PREFIX, text: p.as_os_str().to_string_lossy().into_owned() },
        Component::RootDir => PathComponent { kind: COMPONENT_ROOT_DIR, text: String::new() },
        Component::CurDir => PathComponent { kind: COMPONENT_CUR_DIR, text: String::new() },
        Component::ParentDir => PathComponent { kind: COMPONENT_PARENT_DIR, text: String::new() },
        Component::Normal(n) => PathComponent { kind: COMPONENT_NORMAL, text: n.to_string_lossy().into_owned() },
    }).collect()
}

/// `PathBuf::push` on Unix: an absolute path replaces the buffer; otherwise a `/` is added
/// unless the buffer is empty or already ends with one.
pub open spec fn push_path(buf: Seq<char>, p: Seq<char>) -> Seq<char> {
    if starts_with(p, seq!['/']) || buf.len() == 0 {
        p
    } else if buf.last() == '/' {
        buf + p
    } else {
        buf + seq!['/'] + p
    }
}

pub fn push_path_vec(buf: &mut Vec<char>, p: &[char])
    ensures
        final(buf)@ == push_path(old(buf)@, p@),
{
    if (p.len() > 0 && p[0] == '/') || buf.len() == 0 {
        buf.clear();
        append_chars(buf, p);
        proof {
            assert(final(buf)@ =~= p@);
            if p@.len() > 0 && p@[0] == '/' {
                assert(p@.take(1) =~= seq!['/']);
            }
        }
    } else if buf[buf.len() - 1] == '/' {
        append_chars(buf, p);
        proof {
            assert(!starts_with(p@, seq!['/'])) by {
                if p@.len() > 0 {
                    assert(p@.take(1)[0] == p@[0]);
                }
            }
        }
    } else {
        buf.push('/');
        append_chars(buf, p);
        proof {
            assert(!starts_with(p@, seq!['/'])) by {
                if p@.len() > 0 {
                    assert(p@.take(1)[0] == p@[0]);
                }
            }
        }
    }
}

/// `Path::join` on Unix.
pub fn join_path(base: &str, p: &str) -> (res: String)
    ensures
        res@ == push_path(base@, p@),
{
    let mut buf = chars_of(base);
    let pc = chars_of(p);
    push_path_vec(&mut buf, &pc);
    crate::text::string_from_chars(&buf)
}

/// `Path::file_name`: the last component when it is a normal one.
pub open spec fn file_name(path: Seq<char>) -> Option<Seq<char>> {
    let cs = path_components(path);
    if cs.len() > 0 && cs.last().0 == COMPONENT_NORMAL {
        Some(cs.last().1)
    } else {
        None
    }
}

pub fn file_name_of(path: &str) -> (res: Option<String>)
    ensures
        match file_name(path@) {
            Some(n) => res is Some && res->0@ == n,
            None => res is None,
        },
{
    let cs = components_of(path);
    proof {
        assert(component_views(cs@).len() == cs@.len());
    }
    if cs.len() > 0 && cs[cs.len() - 1].kind == COMPONENT_NORMAL {
        proof {
            assert(component_views(cs@).last() == (cs@.last().kind, cs@.last().text@));
        }
        Some(cs[cs.len() - 1].text.clone())
    } else {
        proof {
            if cs.len() > 0 {
                assert(component_views(cs@).last() == (cs@.last().kind, cs@.last().text@));
            }
        }
        None
    }
}

} // verus!
