//! Unix paths as character sequences: their components, last name,
//! parent, and joining, with the meaning that `std::path` gives them.

use vstd::prelude::*;
use crate::text::{
    copy_range, push_all, split_chars, split_on, views,
};

verus! {

broadcast use vstd::seq_lib::group_seq_properties;

/// A piece between two separators that names a component
/// (empty pieces and `.` pieces are dropped).
pub open spec fn is_kept_piece(p: Seq<char>) -> bool {
    p.len() > 0 && p != seq!['.']
}

/// The component that a path starts with before its named pieces:
/// the root `/` for an absolute path, `.` for a path that starts with
/// the `.` piece, nothing otherwise.
pub open spec fn leading_component(s: Seq<char>) -> Seq<Seq<char>> {
    if s.len() > 0 && s[0] == '/' {
        seq![seq!['/']]
    } else if s.len() > 0 && s[0] == '.' && (s.len() == 1 || s[1] == '/') {
        seq![seq!['.']]
    } else {
        Seq::empty()
    }
}

/// The components of `s`, each written as text, as
/// `Path::components` gives them on Unix.
pub open spec fn components(s: Seq<char>) -> Seq<Seq<char>> {
    leading_component(s) + split_on(s, '/').filter(|p: Seq<char>| is_kept_piece(p))
}

/// A component that names a file or directory (not `/`, `.` or `..`).
pub open spec fn is_normal(c: Seq<char>) -> bool {
    c != seq!['/'] && c != seq!['.'] && c != seq!['.', '.']
}

/// The last component of `comps` when it names something.
pub open spec fn last_name(comps: Seq<Seq<char>>) -> Option<Seq<char>> {
    if comps.len() > 0 && is_normal(comps.last()) {
        Some(comps.last())
    } else {
        None
    }
}

/// What `Path::file_name` gives back.
pub open spec fn file_name(s: Seq<char>) -> Option<Seq<char>> {
    last_name(components(s))
}

/// The components of the parent, as `Path::parent` gives it:
/// none for a path that is empty or ends at the root.
pub open spec fn parent_of(comps: Seq<Seq<char>>) -> Option<Seq<Seq<char>>> {
    if comps.len() > 0 && comps.last() != seq!['/'] {
        Some(comps.drop_last())
    } else {
        None
    }
}

/// The components of the parent of `s`, or none when `s` has no parent.
pub open spec fn parent_components(s: Seq<char>) -> Seq<Seq<char>> {
    match parent_of(components(s)) {
        Some(c) => c,
        None => Seq::empty(),
    }
}

/// What `Path::join` gives back on Unix: an absolute `rest` replaces
/// `base`; otherwise a separator is put between them when `base` is not
/// empty and does not end with one.
pub open spec fn path_join(base: Seq<char>, rest: Seq<char>) -> Seq<char> {
    if rest.len() > 0 && rest[0] == '/' {
        rest
    } else if base.len() > 0 && base.last() != '/' {
        base + seq!['/'] + rest
    } else {
        base + rest
    }
}

/// The components of `s`.
pub fn path_components(s: &Vec<char>) -> (r: Vec<Vec<char>>)
    ensures
        views(r@) == components(s@),
{
    let pieces = split_chars(s, '/');
    let mut r: Vec<Vec<char>> = Vec::new();
    if s.len() > 0 && s[0] == '/' {
        let mut c: Vec<char> = Vec::new();
        c.push('/');
        r.push(c);
        assert(views(r@) =~= seq![seq!['/']]);
    } else if s.len() > 0 && s[0] == '.' && (s.len() == 1 || s[1] == '/') {
        let mut c: Vec<char> = Vec::new();
        c.push('.');
        r.push(c);
        assert(views(r@) =~= seq![seq!['.']]);
    }
    let ghost lead = views(r@);
    assert(lead =~= leading_component(s@));
    let ghost ps = split_on(s@, '/');
    let ghost keep = |p: Seq<char>| is_kept_piece(p);
    let mut i: usize = 0;
    assert(ps.take(0) =~= Seq::<Seq<char>>::empty());
    assert(views(r@) =~= lead + ps.take(0).filter(keep)) by {
        reveal(Seq::filter);
    }
    while i < pieces.len()
        invariant
            0 <= i <= pieces.len(),
            views(pieces@) == ps,
            views(r@) == lead + ps.take(i as int).filter(keep),
            keep == (|p: Seq<char>| is_kept_piece(p)),
        decreases pieces.len() - i,
    {
        let ghost before = views(r@);
        assert(ps.take(i + 1) =~= ps.take(i as int).push(ps[i as int]));
        proof {
            broadcast use Seq::lemma_filter_push;
        }
        assert(pieces[i as int]@ == ps[i as int]);
        let p = &pieces[i];
        let kept = p.len() > 0 && !(p.len() == 1 && p[0] == '.');
        assert(kept == is_kept_piece(p@)) by {
            if p.len() == 1 && p[0] == '.' {
                assert(p@ =~= seq!['.']);
            }
            if p@ == seq!['.'] {
                assert(p@[0] == '.');
            }
        }
        if kept {
            r.push(copy_range(p, 0, p.len()));
            assert(p@.subrange(0, p@.len() as int) =~= p@);
            assert(views(r@) =~= before.push(p@));
        }
        i += 1;
    }
    assert(ps.take(pieces.len() as int) =~= ps);
    r
}

/// The view of an optional character vector.
pub open spec fn opt_view(o: Option<Vec<char>>) -> Option<Seq<char>> {
    match o {
        Some(v) => Some(v@),
        None => None,
    }
}

/// Whether a component names something.
pub fn component_is_normal(c: &Vec<char>) -> (r: bool)
    ensures
        r == is_normal(c@),
{
    let root = c.len() == 1 && c[0] == '/';
    let cur = c.len() == 1 && c[0] == '.';
    let up = c.len() == 2 && c[0] == '.' && c[1] == '.';
    proof {
        if c@ == seq!['/'] || c@ == seq!['.'] {
            assert(c@[0] == seq!['/'][0] || c@[0] == seq!['.'][0]);
        }
        if c@ == seq!['.', '.'] {
            assert(c@[0] == '.' && c@[1] == '.');
        }
        if root {
            assert(c@ =~= seq!['/']);
        }
        if cur {
            assert(c@ =~= seq!['.']);
        }
        if up {
            assert(c@ =~= seq!['.', '.']);
        }
    }
    !(root || cur || up)
}

/// The last component of `comps` when it names something.
pub fn last_name_of(comps: &Vec<Vec<char>>) -> (r: Option<Vec<char>>)
    ensures
        opt_view(r) == last_name(views(comps@)),
{
    if comps.len() > 0 && component_is_normal(&comps[comps.len() - 1]) {
        let last = &comps[comps.len() - 1];
        assert(last@.subrange(0, last@.len() as int) =~= last@);
        Some(copy_range(last, 0, last.len()))
    } else {
        None
    }
}

/// The last component of the path `s` when it names something.
pub fn file_name_of(s: &Vec<char>) -> (r: Option<Vec<char>>)
    ensures
        opt_view(r) == file_name(s@),
{
    let comps = path_components(s);
    last_name_of(&comps)
}

/// The components of the parent of `s` (none when `s` has no parent).
pub fn parent_components_of(s: &Vec<char>) -> (r: Vec<Vec<char>>)
    ensures
        views(r@) == parent_components(s@),
{
    let mut comps = path_components(s);
    let n = comps.len();
    if n > 0 {
        let is_root = comps[n - 1].len() == 1 && comps[n - 1][0] == '/';
        assert(is_root == (views(comps@).last() == seq!['/'])) by {
            if is_root {
                assert(comps[n - 1]@ =~= seq!['/']);
            }
            if comps[n - 1]@ == seq!['/'] {
                assert(comps[n - 1]@[0] == '/');
            }
        }
        if !is_root {
            let ghost before = views(comps@);
            comps.pop();
            assert(views(comps@) =~= before.drop_last());
            return comps;
        }
    }
    Vec::new()
}

/// `base` joined with `rest`.
pub fn join_path(base: &Vec<char>, rest: &Vec<char>) -> (r: Vec<char>)
    ensures
        r@ == path_join(base@, rest@),
{
    if rest.len() > 0 && rest[0] == '/' {
        assert(rest@.subrange(0, rest@.len() as int) =~= rest@);
        return copy_range(rest, 0, rest.len());
    }
    let mut r = copy_range(base, 0, base.len());
    assert(base@.subrange(0, base@.len() as int) =~= base@);
    if base.len() > 0 && base[base.len() - 1] != '/' {
        r.push('/');
    }
    push_all(&mut r, rest);
    r
}

} // verus!
