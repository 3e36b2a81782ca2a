//! Which server binary to launch: the one the user chose, or the first of
//! the bundled ones that is there.

use crate::paths::{join_path, joined_path};
use crate::text::{all_white_space, first_where, is_blank, lemma_first_where_is, text_result};
use vstd::prelude::*;

verus! {

/// The file names under which the server may be bundled, the most specific
/// first: one per macOS architecture, then the plain name.
pub open spec fn candidate(i: int) -> Seq<char> {
    if i == 0 {
        "suwayomi-server-aarch64-apple-darwin"@
    } else if i == 1 {
        "suwayomi-server-x86_64-apple-darwin"@
    } else {
        "suwayomi-server"@
    }
}

/// The test "is true", as a value.
pub open spec fn is_set() -> spec_fn(bool) -> bool {
    |b: bool| b
}

/// The first of the three candidates that `present` marks as there. Marks
/// beyond the third are not looked at; a candidate without a mark is not
/// there.
pub open spec fn first_present(present: Seq<bool>) -> Option<int> {
    let seen = if present.len() < 3 {
        present
    } else {
        present.take(3)
    };
    let p = first_where(seen, is_set());
    if p < seen.len() {
        Some(p as int)
    } else {
        None
    }
}

/// What is said when the resource directory cannot be located.
pub open spec fn no_resource_dir(reason: Seq<char>) -> Seq<char> {
    "Could not locate resource dir: "@ + reason
}

/// What is said when none of the candidates is there.
pub open spec fn not_found() -> Seq<char> {
    "Suwayomi server binary not found. Please set the path in Settings."@
}

/// The binary to launch. A choice that is not blank stands as it is. Else
/// the resource directory must be known, and the first candidate that is
/// there, in that directory, is taken; with none there, nothing is guessed.
pub open spec fn resolved_binary(
    binary: Seq<char>,
    resource_dir: Result<Seq<char>, Seq<char>>,
    present: Seq<bool>,
) -> Result<Seq<char>, Seq<char>> {
    if !all_white_space(binary) {
        Ok(binary)
    } else {
        match resource_dir {
            Err(reason) => Err(no_resource_dir(reason)),
            Ok(dir) => match first_present(present) {
                Some(i) => Ok(joined_path(dir, candidate(i))),
                None => Err(not_found()),
            },
        }
    }
}

/// The candidates' file names, in the order in which they are tried.
pub fn candidate_names() -> (r: Vec<&'static str>)
    ensures
        r@.len() == 3,
        forall|i: int| 0 <= i < 3 ==> (#[trigger] r@[i])@ == candidate(i),
{
    let mut r: Vec<&'static str> = Vec::new();
    r.push("suwayomi-server-aarch64-apple-darwin");
    r.push("suwayomi-server-x86_64-apple-darwin");
    r.push("suwayomi-server");
    r
}

/// Where each candidate would lie in `resource_dir`, in the order in which
/// they are tried.
pub fn candidate_paths(resource_dir: &str) -> (r: Vec<String>)
    ensures
        r@.len() == 3,
        forall|i: int| 0 <= i < 3 ==> (#[trigger] r@[i])@ == joined_path(resource_dir@, candidate(i)),
{
    let names = candidate_names();
    let mut r: Vec<String> = Vec::new();
    let mut i: usize = 0;
    while i < 3
        invariant
            i <= 3,
            names@.len() == 3,
            r@.len() == i,
            forall|j: int| 0 <= j < 3 ==> (#[trigger] names@[j])@ == candidate(j),
            forall|j: int|
                0 <= j < i ==> (#[trigger] r@[j])@ == joined_path(resource_dir@, candidate(j)),
        decreases 3 - i,
    {
        r.push(join_path(resource_dir, names[i]));
        i += 1;
    }
    r
}

/// Tells whether the bundled candidates are to be looked for: the user's
/// choice `binary` is blank. With a choice made, neither the resource
/// directory nor the candidates matter to `resolve_server_binary`.
pub fn wants_bundled(binary: &str) -> (b: bool)
    ensures
        b == all_white_space(binary@),
        !b ==> forall|dir: Result<Seq<char>, Seq<char>>, present: Seq<bool>|
            #[trigger] resolved_binary(binary@, dir, present) == Ok::<Seq<char>, Seq<char>>(
                binary@,
            ),
{
    is_blank(binary)
}

/// Resolves the server binary. `binary` is the user's choice, which may be
/// blank; `resource_dir` is the application's resource directory, or why it
/// could not be located; `present[i]` tells whether the `i`-th candidate
/// lies in it.
///
/// A choice that is not blank is returned unchanged, whether or not a file
/// is there. With a blank choice and no candidate there, the result is an
/// error.
pub fn resolve_server_binary(
    binary: &str,
    resource_dir: Result<String, String>,
    present: &Vec<bool>,
) -> (r: Result<String, String>)
    ensures
        text_result(r) == resolved_binary(binary@, text_result(resource_dir), present@),
        !all_white_space(binary@) ==> text_result(r) == Ok::<Seq<char>, Seq<char>>(binary@),
        all_white_space(binary@) && (forall|i: int| 0 <= i < present@.len() ==> !present@[i])
            ==> r is Err,
{
    if !is_blank(binary) {
        return Ok(binary.to_owned());
    }
    let ghost given = text_result(resource_dir);
    let dir = match resource_dir {
        Ok(dir) => dir,
        Err(reason) => {
            let mut message = "Could not locate resource dir: ".to_owned();
            message.append(reason.as_str());
            return Err(message);
        },
    };
    let names = candidate_names();
    let ghost seen = if present@.len() < 3 {
        present@
    } else {
        present@.take(3)
    };
    let mut i: usize = 0;
    while i < 3 && i < present.len()
        invariant
            i <= 3,
            i <= present@.len(),
            all_white_space(binary@),
            given == text_result(resource_dir),
            given == Ok::<Seq<char>, Seq<char>>(dir@),
            names@.len() == 3,
            forall|j: int| 0 <= j < 3 ==> (#[trigger] names@[j])@ == candidate(j),
            seen == if present@.len() < 3 {
                present@
            } else {
                present@.take(3)
            },
            forall|j: int| 0 <= j < i ==> !is_set()(#[trigger] seen[j]),
        decreases 3 - i,
    {
        if present[i] {
            proof {
                lemma_first_where_is(seen, is_set(), i as int);
                assert(names@[i as int]@ == candidate(i as int));
            }
            return Ok(join_path(dir.as_str(), names[i]));
        }
        i += 1;
    }
    proof {
        lemma_first_where_is(seen, is_set(), i as int);
    }
    Err("Suwayomi server binary not found. Please set the path in Settings.".to_owned())
}

} // verus!
