use vstd::prelude::*;
use crate::paths::{dir_part, extension_of, file_name_part, is_file_name, split_name, split_path, stem_of};
use crate::text::{decimal, push_char, push_decimal, push_str, str_eq};

verus! {

/// What happens when a file's destination is already taken.
#[derive(Clone, Copy, Debug, PartialEq, Eq, Structural)]
pub enum DuplicateHandling {
    /// Leave the file where it is.
    Skip,
    /// Probe `stem_1.ext`, `stem_2.ext`, ... for a free name.
    Rename,
    /// Replace the file at the destination.
    Overwrite,
}

/// How many numbered names a rename probes before it gives up.
pub const RENAME_LIMIT: u64 = 10000;

/// The `i`-th numbered name for a file in directory `dir` with the given stem and
/// extension.
pub open spec fn rename_candidate(dir: Seq<char>, stem: Seq<char>, ext: Option<Seq<char>>, i: nat) -> Seq<char> {
    dir + stem + seq!['_'] + decimal(i) + match ext {
        Some(e) => seq!['.'] + e,
        None => Seq::<char>::empty(),
    }
}

/// The first numbered name from the `i`-th up to the last one probed that is not in
/// `taken`.
pub open spec fn first_free(
    taken: Seq<Seq<char>>,
    dir: Seq<char>,
    stem: Seq<char>,
    ext: Option<Seq<char>>,
    i: nat,
) -> Option<Seq<char>>
    decreases RENAME_LIMIT + 1 - i,
{
    if i > RENAME_LIMIT {
        None
    } else if !taken.contains(rename_candidate(dir, stem, ext, i)) {
        Some(rename_candidate(dir, stem, ext, i))
    } else {
        first_free(taken, dir, stem, ext, i + 1)
    }
}

/// Where a file meant for `target` goes when the paths in `taken` exist, or `None`
/// where it stays put.
pub open spec fn resolve_target(target: Seq<char>, policy: DuplicateHandling, taken: Seq<Seq<char>>) -> Option<Seq<char>> {
    if !taken.contains(target) {
        Some(target)
    } else {
        match policy {
            DuplicateHandling::Skip => None,
            DuplicateHandling::Overwrite => Some(target),
            DuplicateHandling::Rename => {
                let name = file_name_part(target);
                if !is_file_name(name) {
                    None
                } else {
                    first_free(taken, dir_part(target), stem_of(name), extension_of(name), 1)
                }
            },
        }
    }
}

/// The characters of an optional string.
pub open spec fn opt_view(o: Option<String>) -> Option<Seq<char>> {
    match o {
        Some(s) => Some(s@),
        None => None,
    }
}

/// Whether `path` is one of `paths`.
pub fn contains_path(paths: &Vec<String>, path: &str) -> (r: bool)
    ensures
        r == paths.deep_view().contains(path@),
{
    let mut i: usize = 0;
    while i < paths.len()
        invariant
            i <= paths@.len(),
            forall|j: int| 0 <= j < i ==> paths.deep_view()[j] != path@,
        decreases paths.len() - i,
    {
        if str_eq(paths[i].as_str(), path) {
            assert(paths.deep_view()[i as int] == path@);
            return true;
        }
        i = i + 1;
    }
    false
}

fn candidate(dir: &str, stem: &str, ext: &Option<String>, i: u64) -> (r: String)
    ensures
        r@ == rename_candidate(dir@, stem@, opt_view(*ext), i as nat),
{
    let mut r = String::from_str(dir);
    push_str(&mut r, stem);
    push_char(&mut r, '_');
    push_decimal(&mut r, i);
    match ext {
        Some(e) => {
            push_char(&mut r, '.');
            push_str(&mut r, e.as_str());
        },
        None => {},
    }
    assert(r@ =~= rename_candidate(dir@, stem@, opt_view(*ext), i as nat));
    r
}

/// The actual destination for a file meant for `initial_target`, where `occupied` lists
/// the paths that exist. A free target is kept. A taken one is given up under `Skip`,
/// kept under `Overwrite`, and under `Rename` replaced by the first free numbered name
/// `stem_<n>.ext` in the same directory, for `n` from 1 up to 10,000; past that, or where
/// the target has no file name, there is none.
pub fn resolve_duplicate_target(
    initial_target: &str,
    duplicate_handling: DuplicateHandling,
    occupied: &Vec<String>,
) -> (r: Option<String>)
    ensures
        match r {
            Some(p) => resolve_target(initial_target@, duplicate_handling, occupied.deep_view())
                == Some(p@),
            None => resolve_target(initial_target@, duplicate_handling, occupied.deep_view()) is None,
        },
{
    if !contains_path(occupied, initial_target) {
        return Some(String::from_str(initial_target));
    }
    match duplicate_handling {
        DuplicateHandling::Skip => None,
        DuplicateHandling::Overwrite => Some(String::from_str(initial_target)),
        DuplicateHandling::Rename => {
            let (dir, name) = split_path(initial_target);
            if name.unicode_len() == 0 || str_eq(name.as_str(), "..") {
                return None;
            }
            let (stem, ext) = split_name(name.as_str());
            let ghost gext = opt_view(ext);
            let ghost taken = occupied.deep_view();
            assert(gext == extension_of(name@));
            assert(is_file_name(name@));
            assert(resolve_target(initial_target@, duplicate_handling, taken) == first_free(
                taken,
                dir@,
                stem@,
                gext,
                1,
            ));
            let mut index: u64 = 1;
            while index <= RENAME_LIMIT
                invariant
                    1 <= index <= RENAME_LIMIT + 1,
                    taken == occupied.deep_view(),
                    gext == opt_view(ext),
                    resolve_target(initial_target@, duplicate_handling, taken) == first_free(
                        taken,
                        dir@,
                        stem@,
                        gext,
                        1,
                    ),
                    first_free(taken, dir@, stem@, gext, 1) == first_free(
                        taken,
                        dir@,
                        stem@,
                        gext,
                        index as nat,
                    ),
                decreases RENAME_LIMIT + 1 - index,
            {
                let cand = candidate(dir.as_str(), stem.as_str(), &ext, index);
                if !contains_path(occupied, cand.as_str()) {
                    assert(first_free(taken, dir@, stem@, gext, index as nat) == Some(cand@));
                    return Some(cand);
                }
                index = index + 1;
            }
            None
        },
    }
}

proof fn lemma_first_free_is_free(
    taken: Seq<Seq<char>>,
    dir: Seq<char>,
    stem: Seq<char>,
    ext: Option<Seq<char>>,
    i: nat,
)
    ensures
        first_free(taken, dir, stem, ext, i) matches Some(p) ==> !taken.contains(p),
    decreases RENAME_LIMIT + 1 - i,
{
    if i <= RENAME_LIMIT && taken.contains(rename_candidate(dir, stem, ext, i)) {
        lemma_first_free_is_free(taken, dir, stem, ext, i + 1);
    }
}

/// Under `Rename` a file is only ever sent to a free path: whatever destination the
/// resolution gives is none of the taken ones. With each done move's destination counted
/// as taken from then on, no two moves of a pass share a destination.
pub proof fn lemma_rename_destination_free(target: Seq<char>, taken: Seq<Seq<char>>)
    ensures
        resolve_target(target, DuplicateHandling::Rename, taken) matches Some(p) ==> !taken.contains(p),
{
    if taken.contains(target) {
        let name = file_name_part(target);
        lemma_first_free_is_free(taken, dir_part(target), stem_of(name), extension_of(name), 1);
    }
}

} // verus!
