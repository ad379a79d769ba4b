//! The result of a traversal: the paths of the files among everything the
//! walker emitted.

use crate::entry::Child;
use vstd::prelude::*;

verus! {

/// The path that one emitted child adds to the result: its own if it is a
/// file, none if it is anything else or could not be read.
pub open spec fn file_path<T, E>(child: Child<T, E>) -> Option<String> {
    match child {
        Ok(entry) => if entry.is_file() {
            Some(entry.path)
        } else {
            None
        },
        Err(_) => None,
    }
}

/// The paths of the files among the emitted children, in the order in which
/// they were emitted.
pub open spec fn file_paths<T, E>(emitted: Seq<Child<T, E>>) -> Seq<String> {
    emitted.filter_map(|child: Child<T, E>| file_path(child))
}

/// The paths that the first `n + 1` emitted children add to the result.
pub proof fn lemma_file_paths_take<T, E>(emitted: Seq<Child<T, E>>, n: int)
    requires
        0 <= n < emitted.len(),
    ensures
        file_paths(emitted.take(n + 1)) == (match file_path(emitted[n]) {
            Some(path) => file_paths(emitted.take(n)).push(path),
            None => file_paths(emitted.take(n)),
        }),
{
    emitted.lemma_filter_map_take_succ(|child: Child<T, E>| file_path(child), n);
}

/// Gathers the result of a traversal from what the walker emitted: the path
/// of every entry that is a regular file, in the order of emission.
/// Directories, links and children that could not be read add nothing.
pub fn collect_files<T, E>(emitted: Vec<Child<T, E>>) -> (files: Vec<String>)
    ensures
        files@ == file_paths(emitted@),
{
    let mut files: Vec<String> = Vec::new();
    let ghost all = emitted@;
    for child in it: emitted
        invariant
            it.seq() == all,
            files@ == file_paths(all.take(it.index() as int)),
    {
        proof {
            lemma_file_paths_take(all, it.index() as int);
        }
        match child {
            Ok(entry) => {
                if entry.is_file() {
                    files.push(entry.path);
                }
            },
            Err(_) => {},
        }
    }
    proof {
        assert(all.take(all.len() as int) =~= all);
    }
    files
}

} // verus!
