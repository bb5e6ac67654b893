//! Turning the import strings of a file into the paths of the files they
//! may name: each import joined onto the file's own directory and onto each
//! library root, in that order, then resolved and kept if the file exists.

use crate::text::{chars_of, push_char, strings};
use resolve_path::PathResolveExt;
use vstd::prelude::*;

verus! {

/// A path that starts at the root of the file system. Paths here are Unix
/// paths.
pub open spec fn is_absolute(p: Seq<char>) -> bool {
    p.len() > 0 && p[0] == '/'
}

/// `p` taken relative to `base`: an absolute `p` stands alone; otherwise a
/// separator goes between the two unless `base` is empty or ends in one.
pub open spec fn join_path(base: Seq<char>, p: Seq<char>) -> Seq<char> {
    if is_absolute(p) {
        p
    } else if base.len() == 0 || base.last() == '/' {
        base + p
    } else {
        base + seq!['/'] + p
    }
}

/// Each of `imports` in turn, joined onto each of `roots` in turn.
pub open spec fn candidates(roots: Seq<Seq<char>>, imports: Seq<Seq<char>>) -> Seq<Seq<char>>
    decreases imports.len(),
{
    if imports.len() == 0 {
        Seq::empty()
    } else {
        candidates(roots, imports.drop_last()) + roots.map_values(
            |r: Seq<char>| join_path(r, imports.last()),
        )
    }
}

/// The paths of `paths` whose flag in `present` is set, in order.
pub open spec fn kept(paths: Seq<Seq<char>>, present: Seq<bool>) -> Seq<Seq<char>>
    decreases paths.len(),
{
    if paths.len() == 0 || present.len() == 0 {
        Seq::empty()
    } else if present.last() {
        kept(paths.drop_last(), present.drop_last()).push(paths.last())
    } else {
        kept(paths.drop_last(), present.drop_last())
    }
}

/// See `join_path`.
pub fn join(base: &str, p: &str) -> (r: String)
    ensures
        r@ == join_path(base@, p@),
{
    let pc = chars_of(p);
    if pc.len() > 0 && pc[0] == '/' {
        return String::from_str(p);
    }
    let bc = chars_of(base);
    let mut r = String::from_str(base);
    if bc.len() > 0 && bc[bc.len() - 1] != '/' {
        push_char(&mut r, '/');
    }
    r.append(p);
    proof {
        if bc.len() > 0 && bc@[bc.len() - 1] != '/' {
            assert(base@.push('/') =~= base@ + seq!['/']);
        }
    }
    r
}

/// The roots that imports are sought under, first to last: the file's
/// directory, then the library paths.
pub open spec fn roots(cur_dir: Seq<char>, lib_paths: Seq<Seq<char>>) -> Seq<Seq<char>> {
    seq![cur_dir] + lib_paths
}

/// Each import joined onto the file's directory and then onto each library
/// path, import after import.
pub fn search_candidates(cur_dir: &str, lib_paths: &Vec<String>, imports: &Vec<String>) -> (r: Vec<
    String,
>)
    ensures
        strings(r@) == candidates(roots(cur_dir@, strings(lib_paths@)), strings(imports@)),
{
    let mut rs: Vec<String> = Vec::new();
    rs.push(String::from_str(cur_dir));
    let mut j: usize = 0;
    while j < lib_paths.len()
        invariant
            j <= lib_paths@.len(),
            strings(rs@) == seq![cur_dir@] + strings(lib_paths@.take(j as int)),
        decreases lib_paths@.len() - j,
    {
        let ghost before = rs@;
        rs.push(lib_paths[j].clone());
        proof {
            assert(strings(rs@) =~= strings(before).push(lib_paths@[j as int]@));
            assert(lib_paths@.take(j + 1) =~= lib_paths@.take(j as int).push(lib_paths@[j as int]));
            assert(strings(rs@) =~= seq![cur_dir@] + strings(lib_paths@.take(j + 1)));
        }
        j += 1;
    }
    assert(lib_paths@.take(j as int) =~= lib_paths@);
    let ghost rv = strings(rs@);
    let ghost iv = strings(imports@);
    let mut r: Vec<String> = Vec::new();
    let mut i: usize = 0;
    while i < imports.len()
        invariant
            i <= imports@.len(),
            rv == strings(rs@),
            iv == strings(imports@),
            strings(r@) == candidates(rv, iv.take(i as int)),
        decreases imports@.len() - i,
    {
        let mut k: usize = 0;
        let ghost start = strings(r@);
        while k < rs.len()
            invariant
                i < imports@.len(),
                k <= rs@.len(),
                rv == strings(rs@),
                iv == strings(imports@),
                start == candidates(rv, iv.take(i as int)),
                strings(r@) == start + rv.take(k as int).map_values(
                    |x: Seq<char>| join_path(x, iv[i as int]),
                ),
            decreases rs@.len() - k,
        {
            let ghost before = r@;
            let c = join(rs[k].as_str(), imports[i].as_str());
            r.push(c);
            proof {
                assert(strings(r@) =~= strings(before).push(join_path(rv[k as int], iv[i as int])));
                assert(rv.take(k + 1).map_values(|x: Seq<char>| join_path(x, iv[i as int]))
                    =~= rv.take(k as int).map_values(
                    |x: Seq<char>| join_path(x, iv[i as int]),
                ).push(join_path(rv[k as int], iv[i as int])));
            }
            k += 1;
        }
        proof {
            let t = iv.take(i + 1);
            assert(t.drop_last() =~= iv.take(i as int));
            assert(t.last() == iv[i as int]);
            assert(rv.take(k as int) =~= rv);
        }
        i += 1;
    }
    assert(iv.take(i as int) =~= iv);
    r
}

/// Relies on resolve_path's `PathResolveExt::try_resolve`: an absolute
/// path (on Unix, one that starts with `/`) comes back as it is; a path
/// under `~` or a relative one is anchored at the home directory or the
/// working directory. Finding the working directory may fail, for any path.
/// The clause holds on Unix, which this library is for: on Windows std
/// does not take a path that starts with `/` as absolute and anchors it.
#[verifier::external_body]
fn resolve_one(p: &str) -> (r: Option<String>)
    ensures
        is_absolute(p@) ==> (r matches Some(s) ==> s@ == p@),
{
    match p.try_resolve() {
        Ok(path) => Some(path.to_string_lossy().into_owned()),
        Err(_) => None,
    }
}

/// Each path anchored at the home directory (for `~`) or the working
/// directory (if relative); a path that cannot be resolved stays as it is.
pub fn resolve_all(paths: &Vec<String>) -> (r: Vec<String>)
    ensures
        r@.len() == paths@.len(),
        forall|i: int|
            0 <= i < paths@.len() && is_absolute(#[trigger] paths@[i]@) ==> r@[i]@ == paths@[i]@,
{
    let mut r: Vec<String> = Vec::new();
    let mut i: usize = 0;
    while i < paths.len()
        invariant
            i <= paths@.len(),
            r@.len() == i,
            forall|j: int| 0 <= j < i && is_absolute(#[trigger] paths@[j]@) ==> r@[j]@ == paths@[j]@,
        decreases paths@.len() - i,
    {
        match resolve_one(paths[i].as_str()) {
            Some(s) => r.push(s),
            None => r.push(paths[i].clone()),
        }
        i += 1;
    }
    r
}

/// The paths whose flag in `present` is set, in order: `present` says, for
/// each path, whether a file is there.
pub fn keep_existing(paths: &Vec<String>, present: &Vec<bool>) -> (r: Vec<String>)
    requires
        paths@.len() == present@.len(),
    ensures
        strings(r@) == kept(strings(paths@), present@),
{
    let ghost pv = strings(paths@);
    let mut r: Vec<String> = Vec::new();
    let mut i: usize = 0;
    while i < paths.len()
        invariant
            i <= paths@.len(),
            paths@.len() == present@.len(),
            pv == strings(paths@),
            strings(r@) == kept(pv.take(i as int), present@.take(i as int)),
        decreases paths@.len() - i,
    {
        let ghost before = r@;
        proof {
            assert(pv.take(i + 1).drop_last() =~= pv.take(i as int));
            assert(present@.take(i + 1).drop_last() =~= present@.take(i as int));
        }
        if present[i] {
            r.push(paths[i].clone());
            assert(strings(r@) =~= strings(before).push(pv[i as int]));
        }
        i += 1;
    }
    assert(pv.take(i as int) =~= pv);
    assert(present@.take(i as int) =~= present@);
    r
}

} // verus!
