//! Mesh source names and the asset paths they are loaded from.

use vstd::prelude::*;
use vstd::string::{StrSliceExecFns, StringExecFns};
use crate::sync_model::has_key;

verus! {

/// The path, relative to the asset root, of the glTF scene of mesh source `name`.
pub open spec fn gltf_path_of(name: Seq<char>) -> Seq<char> {
    "meshes/"@ + name + "/scene.gltf"@
}

/// The asset path of the glTF scene of mesh source `name`.
pub fn gltf_asset_path(name: &str) -> (r: String)
    ensures
        r@ == gltf_path_of(name@),
{
    let mut r = String::from_str("meshes/");
    r.append(name);
    r.append("/scene.gltf");
    r
}

/// Registers mesh source `name` with the set of sources whose assets are
/// watched. A source not registered before is added, and the asset path to
/// start loading and watching is returned; a known one changes nothing.
pub fn register_unique_gltf_asset(unique: &mut Vec<String>, name: &String) -> (r: Option<String>)
    ensures
        has_key(old(unique)@, name@) ==> r is None && final(unique)@ == old(unique)@,
        !has_key(old(unique)@, name@) ==> {
            &&& r is Some
            &&& r->Some_0@ == gltf_path_of(name@)
            &&& final(unique)@ == old(unique)@.push(*name)
        },
{
    let mut i: usize = 0;
    while i < unique.len()
        invariant
            i <= unique.len(),
            forall|j: int| 0 <= j < i ==> unique@[j]@ != name@,
        decreases unique.len() - i,
    {
        if unique[i] == *name {
            return None;
        }
        i += 1;
    }
    unique.push(name.clone());
    Some(gltf_asset_path(name.as_str()))
}

pub open spec fn is_separator(c: char) -> bool {
    c == '/' || c == '\\'
}

/// The position of the first path separator in `s` at or after `start`, or
/// the length of `s` if there is none.
pub open spec fn next_separator(s: Seq<char>, start: int) -> int
    decreases s.len() - start,
{
    if start >= s.len() {
        s.len() as int
    } else if is_separator(s[start]) {
        start
    } else {
        next_separator(s, start + 1)
    }
}

/// The mesh source name in an asset path: its second component, with `/` and
/// `\` both separating components (`meshes/car/scene.gltf` names `car`); none
/// when the path has a single component.
pub open spec fn mesh_src_of(s: Seq<char>) -> Option<Seq<char>> {
    let p = next_separator(s, 0);
    if p >= s.len() {
        None
    } else {
        Some(s.subrange(p + 1, next_separator(s, p + 1)))
    }
}

proof fn lemma_next_separator_bounds(s: Seq<char>, start: int)
    requires
        0 <= start <= s.len(),
    ensures
        start <= next_separator(s, start) <= s.len(),
        next_separator(s, start) < s.len() ==> is_separator(s[next_separator(s, start)]),
    decreases s.len() - start,
{
    if start < s.len() && !is_separator(s[start]) {
        lemma_next_separator_bounds(s, start + 1);
    }
}

/// The position of the first separator at or after `start`.
fn find_separator(s: &str, n: usize, start: usize) -> (r: usize)
    requires
        n == s@.len(),
        start <= n,
    ensures
        r == next_separator(s@, start as int),
{
    let mut i = start;
    while i < n
        invariant
            start <= i <= n,
            n == s@.len(),
            next_separator(s@, start as int) == next_separator(s@, i as int),
        decreases n - i,
    {
        let c = s.get_char(i);
        if c == '/' || c == '\\' {
            return i;
        }
        i += 1;
    }
    i
}

/// The mesh source name that an asset path names, if it has one.
pub fn mesh_src_from_asset_path(path: &str) -> (r: Option<String>)
    ensures
        match r {
            Some(name) => mesh_src_of(path@) == Some(name@),
            None => mesh_src_of(path@) is None,
        },
{
    let n = path.unicode_len();
    let p = find_separator(path, n, 0);
    if p >= n {
        return None;
    }
    proof {
        lemma_next_separator_bounds(path@, p as int + 1);
    }
    let q = find_separator(path, n, p + 1);
    Some(String::from_str(path.substring_char(p + 1, q)))
}

} // verus!
