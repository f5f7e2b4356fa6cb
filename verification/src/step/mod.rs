//! Steps: a single linting or formatting task that works on files.
use crate::text;
use vstd::prelude::*;

pub mod command_laws;
pub mod job;
pub mod job_laws;
pub mod runner;
pub mod step_laws;
pub mod types;

verus! {

/// The header line of a diff for the old file without the suffix `.orig` of its path, where it
/// is such a line and the path has the suffix. The path ends at the first tab; what follows
/// stays.
pub open spec fn header_without_orig(line: Seq<char>) -> Option<Seq<char>> {
    let after = line.skip(4);
    let tab = text::run_len(after, '\t') as int;
    let path = after.take(tab);
    if text::begins_with(line, "--- "@) && text::ends_in(path, ".orig"@) {
        let stripped = "--- "@ + path.take(path.len() - 5);
        if tab + 1 < after.len() {
            Some(stripped + "\t"@ + after.skip(tab + 1))
        } else {
            Some(stripped)
        }
    } else {
        None
    }
}

/// Whether a line is the header of a diff for the new file, and its path, which ends at the first
/// tab, does not have the suffix `.orig`.
pub open spec fn is_plain_new_header(line: Seq<char>) -> bool {
    let after = line.skip(4);
    let path = after.take(text::run_len(after, '\t') as int);
    text::begins_with(line, "+++ "@) && !text::ends_in(path, ".orig"@)
}

/// The line of a diff after stripping: the header of the old file loses the suffix `.orig` of its
/// path where the next line is the header of a new file whose path does not have it.
pub open spec fn stripped_line(lines: Seq<Seq<char>>, i: int) -> Seq<char> {
    if i + 1 < lines.len() && is_plain_new_header(lines[i + 1]) && header_without_orig(
        lines[i],
    ) is Some {
        header_without_orig(lines[i])->0
    } else {
        lines[i]
    }
}

/// The lines of a diff after stripping, each ended by a line feed.
pub open spec fn stripped_diff(diff: Seq<char>) -> Seq<char> {
    let lines = text::lines(diff);
    text::join(Seq::new(lines.len(), |i: int| stripped_line(lines, i)), "\n"@) + "\n"@
}

fn strip_header(line: &str) -> (r: Option<String>)
    ensures
        r is Some <==> header_without_orig(line@) is Some,
        r is Some ==> r->0@ == header_without_orig(line@)->0,
{
    proof {
        reveal_strlit("--- ");
        reveal_strlit(".orig");
        reveal_strlit("\t");
    }
    let after = match text::strip_prefix(line, "--- ") {
        Some(a) => a,
        None => {
            return None;
        },
    };
    assert(after@ == line@.skip(4));
    let (path, rest) = match text::split_once(after.as_str(), '\t') {
        Some((p, r)) => (p, r),
        None => (after, String::new()),
    };
    proof {
        text::lemma_run_len(after@, '\t');
        let tab = text::run_len(after@, '\t') as int;
        if tab == after@.len() {
            assert(after@.take(tab) =~= after@);
        }
    }
    match text::strip_suffix(path.as_str(), ".orig") {
        Some(s) => {
            let mut r = "--- ".to_owned();
            r.append(s.as_str());
            if !rest.as_str().is_empty() {
                r.append("\t");
                r.append(rest.as_str());
            }
            Some(r)
        },
        None => None,
    }
}

fn plain_new_header(line: &str) -> (b: bool)
    ensures
        b == is_plain_new_header(line@),
{
    proof {
        reveal_strlit("+++ ");
    }
    let after = match text::strip_prefix(line, "+++ ") {
        Some(a) => a,
        None => {
            return false;
        },
    };
    assert(after@ == line@.skip(4));
    let path = match text::split_once(after.as_str(), '\t') {
        Some((p, _)) => p,
        None => after,
    };
    proof {
        text::lemma_run_len(after@, '\t');
        let tab = text::run_len(after@, '\t') as int;
        if tab == after@.len() {
            assert(after@.take(tab) =~= after@);
        }
    }
    text::strip_suffix(path.as_str(), ".orig").is_none()
}

/// Strips the suffix `.orig` from the header of an old file where the header of the new file,
/// which follows it, does not have it.
pub fn strip_orig_suffix(diff: &str) -> (r: String)
    ensures
        r@ == stripped_diff(diff@),
{
    let lines = text::split_lines(diff);
    let ghost all = text::texts(lines@);
    let mut result: Vec<String> = Vec::new();
    let mut i: usize = 0;
    while i < lines.len()
        invariant
            i <= lines@.len(),
            all == text::texts(lines@),
            result@.len() == i,
            forall|j: int| 0 <= j < i ==> #[trigger] result@[j]@ == stripped_line(all, j),
        decreases lines@.len() - i,
    {
        let mut line = lines[i].clone();
        if i + 1 < lines.len() {
            assert(all[i + 1] == lines@[i + 1]@);
            if plain_new_header(lines[i + 1].as_str()) {
                if let Some(h) = strip_header(lines[i].as_str()) {
                    line = h;
                }
            }
        }
        result.push(line);
        i = i + 1;
    }
    proof {
        assert(text::texts(result@) =~= Seq::new(all.len(), |i: int| stripped_line(all, i)));
    }
    text::joined(&result, "\n").concat("\n")
}

} // verus!
