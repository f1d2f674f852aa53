//! Path text as `std::path::Path` reads it on Unix: components between `/`,
//! with empty and `.` components dropped, file names and their extensions.
use vstd::prelude::*;

use crate::text::{chars_eq, chars_of, lower, lower_chars, split, split_chars};

verus! {

/// The kept components among `parts`: the non-empty ones other than `.`.
pub open spec fn normal_parts(parts: Seq<Seq<char>>) -> Seq<Seq<char>>
    decreases parts.len(),
{
    if parts.len() == 0 {
        Seq::<Seq<char>>::empty()
    } else {
        let prev = normal_parts(parts.drop_last());
        let x = parts.last();
        if x.len() > 0 && x != seq!['.'] {
            prev.push(x)
        } else {
            prev
        }
    }
}

/// The components of a path, without root, empty and `.` components.
pub open spec fn components(p: Seq<char>) -> Seq<Seq<char>> {
    normal_parts(split(p, '/'))
}

/// `Path::file_name`: the last component, unless there is none or it is `..`.
pub open spec fn file_name(p: Seq<char>) -> Option<Seq<char>> {
    let c = components(p);
    if c.len() == 0 || c.last() == seq!['.', '.'] {
        None
    } else {
        Some(c.last())
    }
}

/// `Path::extension` of a file name: the text after the last `.`, when there is
/// a `.` with text before it.
pub open spec fn name_extension(name: Seq<char>) -> Option<Seq<char>> {
    let parts = split(name, '.');
    if parts.len() >= 2 && !(parts.len() == 2 && parts[0].len() == 0) {
        Some(parts.last())
    } else {
        None
    }
}

/// The ASCII-lower-cased extension of a path's file name.
pub open spec fn extension(p: Seq<char>) -> Option<Seq<char>> {
    match file_name(p) {
        Some(n) => match name_extension(n) {
            Some(e) => Some(lower(e)),
            None => None,
        },
        None => None,
    }
}

fn normal_parts_of(parts: &Vec<Vec<char>>) -> (r: Vec<Vec<char>>)
    ensures
        r@.map_values(|v: Vec<char>| v@) == normal_parts(parts@.map_values(|v: Vec<char>| v@)),
{
    let ghost views = parts@.map_values(|v: Vec<char>| v@);
    let mut r: Vec<Vec<char>> = Vec::new();
    let mut i: usize = 0;
    let dot: Vec<char> = vec!['.'];
    assert(dot@ =~= seq!['.']);
    while i < parts.len()
        invariant
            i <= parts@.len(),
            views == parts@.map_values(|v: Vec<char>| v@),
            dot@ == seq!['.'],
            r@.map_values(|v: Vec<char>| v@) == normal_parts(views.subrange(0, i as int)),
        decreases parts@.len() - i,
    {
        let ghost prev = views.subrange(0, i as int);
        let x = &parts[i];
        let keep = x.len() > 0 && !chars_eq(x.as_slice(), dot.as_slice());
        if keep {
            r.push(x.clone());
        }
        i = i + 1;
        let ghost now = views.subrange(0, i as int);
        assert(now.drop_last() =~= prev);
        assert(now.last() == x@);
        assert(r@.map_values(|v: Vec<char>| v@) =~= normal_parts(now));
    }
    assert(views.subrange(0, parts@.len() as int) =~= views);
    r
}

/// The components of a path.
pub fn components_of(p: &[char]) -> (r: Vec<Vec<char>>)
    ensures
        r@.map_values(|v: Vec<char>| v@) == components(p@),
{
    let parts = split_chars(p, '/');
    normal_parts_of(&parts)
}

/// `Path::file_name`.
pub fn file_name_of(p: &[char]) -> (r: Option<Vec<char>>)
    ensures
        r matches Some(n) ==> file_name(p@) == Some(n@),
        r is None ==> file_name(p@) is None,
{
    let c = components_of(p);
    let ghost cv = c@.map_values(|v: Vec<char>| v@);
    if c.len() == 0 {
        return None;
    }
    let last = &c[c.len() - 1];
    assert(cv.last() == last@);
    let dots: Vec<char> = vec!['.', '.'];
    assert(dots@ =~= seq!['.', '.']);
    if chars_eq(last.as_slice(), dots.as_slice()) {
        None
    } else {
        Some(last.clone())
    }
}

/// `Path::extension` of a file name.
pub fn name_extension_of(name: &[char]) -> (r: Option<Vec<char>>)
    ensures
        r matches Some(e) ==> name_extension(name@) == Some(e@),
        r is None ==> name_extension(name@) is None,
{
    let parts = split_chars(name, '.');
    let ghost pv = parts@.map_values(|v: Vec<char>| v@);
    let n = parts.len();
    if n >= 2 && !(n == 2 && parts[0].len() == 0) {
        assert(pv[0] == parts@[0]@);
        assert(pv.last() == parts@[n - 1]@);
        Some(parts[n - 1].clone())
    } else {
        if n == 2 {
            assert(pv[0] == parts@[0]@);
        }
        None
    }
}

/// The lower-cased extension of a path (`Path::extension` then ASCII lower case).
pub fn extension_of(p: &[char]) -> (r: Option<Vec<char>>)
    ensures
        r matches Some(e) ==> extension(p@) == Some(e@),
        r is None ==> extension(p@) is None,
{
    match file_name_of(p) {
        Some(n) => match name_extension_of(n.as_slice()) {
            Some(e) => Some(lower_chars(e.as_slice())),
            None => None,
        },
        None => None,
    }
}

/// Whether a path's lower-cased extension is `expected`.
pub fn has_extension(p: &str, expected: &str) -> (r: bool)
    ensures
        r == (extension(p@) == Some(expected@)),
{
    let pc = chars_of(p);
    let ec = chars_of(expected);
    match extension_of(pc.as_slice()) {
        Some(e) => chars_eq(e.as_slice(), ec.as_slice()),
        None => false,
    }
}

/// `Path::components` as text: a leading `/` for the root, a leading `.` when
/// a relative path starts with `.`, then the other components.
pub open spec fn full_components(p: Seq<char>) -> Seq<Seq<char>> {
    let head = if p.len() > 0 && p[0] == '/' {
        seq![seq!['/']]
    } else if split(p, '/')[0] == seq!['.'] {
        seq![seq!['.']]
    } else {
        Seq::empty()
    };
    head + components(p)
}

/// The components of a path, as `Path::components` gives them.
pub fn full_components_of(p: &[char]) -> (r: Vec<Vec<char>>)
    ensures
        r@.map_values(|v: Vec<char>| v@) == full_components(p@),
{
    let parts = split_chars(p, '/');
    let ghost pv = parts@.map_values(|v: Vec<char>| v@);
    proof {
        crate::text::lemma_split_nonempty(p@, '/');
    }
    let mut out = normal_parts_of(&parts);
    let ghost rest = out@.map_values(|v: Vec<char>| v@);
    assert(rest == components(p@));
    if p.len() > 0 && p[0] == '/' {
        let root: Vec<char> = vec!['/'];
        assert(root@ =~= seq!['/']);
        out.insert(0, root);
        assert(out@.map_values(|v: Vec<char>| v@) =~= seq![seq!['/']] + rest);
    } else {
        assert(pv[0] == parts@[0]@);
        let dot: Vec<char> = vec!['.'];
        assert(dot@ =~= seq!['.']);
        if chars_eq(parts[0].as_slice(), dot.as_slice()) {
            out.insert(0, dot);
            assert(out@.map_values(|v: Vec<char>| v@) =~= seq![seq!['.']] + rest);
        } else {
            assert(out@.map_values(|v: Vec<char>| v@) =~= Seq::<Seq<char>>::empty() + rest);
        }
    }
    out
}

/// `Path::starts_with`: the components of `base` begin the components of `p`.
pub open spec fn path_starts_with(p: Seq<char>, base: Seq<char>) -> bool {
    let a = full_components(p);
    let b = full_components(base);
    b.len() <= a.len() && a.subrange(0, b.len() as int) == b
}

pub fn starts_with_path(p: &str, base: &str) -> (r: bool)
    ensures
        r == path_starts_with(p@, base@),
{
    let pc = chars_of(p);
    let bc = chars_of(base);
    let a = full_components_of(pc.as_slice());
    let b = full_components_of(bc.as_slice());
    let ghost av = a@.map_values(|v: Vec<char>| v@);
    let ghost bv = b@.map_values(|v: Vec<char>| v@);
    if b.len() > a.len() {
        return false;
    }
    let mut i: usize = 0;
    while i < b.len()
        invariant
            i <= b@.len() <= a@.len(),
            av == a@.map_values(|v: Vec<char>| v@),
            bv == b@.map_values(|v: Vec<char>| v@),
            av == full_components(p@),
            bv == full_components(base@),
            forall|k: int| 0 <= k < i ==> #[trigger] av[k] == bv[k],
        decreases b@.len() - i,
    {
        if !chars_eq(a[i].as_slice(), b[i].as_slice()) {
            proof {
                assert(av[i as int] == a@[i as int]@);
                assert(bv[i as int] == b@[i as int]@);
                assert(av.subrange(0, bv.len() as int)[i as int] == av[i as int]);
                assert(av.subrange(0, bv.len() as int) != bv);
            }
            return false;
        }
        i = i + 1;
    }
    assert(av.subrange(0, bv.len() as int) =~= bv);
    true
}

} // verus!
