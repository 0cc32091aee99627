//! Names of files and directories: their layout and which of them are safe.
//!
//! Paths are texts with `/` between their components.

use crate::error::GenericJobError;
use crate::text::{decimal_text, letters, padded_text, same_text, texts};
#[allow(unused_imports)]
use crate::text::{decimal, is_digit, lemma_decimal_value, lemma_padded_value, padded};
use vstd::prelude::*;

verus! {

/// A path with one more component.
pub open spec fn join(root: Seq<char>, name: Seq<char>) -> Seq<char> {
    if root.len() == 0 {
        name
    } else if root.last() == '/' {
        root + name
    } else {
        root + seq!['/'] + name
    }
}

/// The directory of a zero-based task index.
pub open spec fn task_directory(root: Seq<char>, task_index: nat) -> Seq<char> {
    join(root, "task"@ + padded(task_index + 1))
}

/// The file of a zero-based run index in the directory of a task.
pub open spec fn run_file(
    root: Seq<char>,
    task_index: nat,
    run_index: nat,
    extension: Seq<char>,
) -> Seq<char> {
    join(task_directory(root, task_index), "run"@ + padded(run_index + 1) + extension)
}

/// Appends one component to a path.
fn join_text(root: &str, name: &str) -> (path: String)
    ensures
        path@ == join(root@, name@),
{
    proof {
        reveal_strlit("/");
        assert("/"@ =~= seq!['/']);
    }
    let chars = letters(root);
    if chars.len() == 0 {
        name.to_owned()
    } else if chars[chars.len() - 1] == '/' {
        root.to_owned().concat(name)
    } else {
        root.to_owned().concat("/").concat(name)
    }
}

/// Returns the directory for a zero-based task index.
pub fn task_path(root: &str, task_index: usize) -> (path: String)
    requires
        task_index < usize::MAX,
    ensures
        path@ == task_directory(root@, task_index as nat),
{
    let name = "task".to_owned().concat(padded_text((task_index + 1) as u64).as_str());
    join_text(root, name.as_str())
}

/// Returns the path of a file of a run.
fn run_path(root: &str, task_index: usize, run_index: usize, extension: &str) -> (path: String)
    requires
        task_index < usize::MAX,
        run_index < usize::MAX,
    ensures
        path@ == run_file(root@, task_index as nat, run_index as nat, extension@),
{
    let name = "run".to_owned().concat(padded_text((run_index + 1) as u64).as_str()).concat(
        extension,
    );
    join_text(task_path(root, task_index).as_str(), name.as_str())
}

/// Returns the HDF5 dump path for zero-based task and run indices.
pub fn dump_path(root: &str, task_index: usize, run_index: usize) -> (path: String)
    requires
        task_index < usize::MAX,
        run_index < usize::MAX,
    ensures
        path@ == run_file(root@, task_index as nat, run_index as nat, ".dump.h5"@),
{
    run_path(root, task_index, run_index, ".dump.h5")
}

/// Returns the HDF5 measurement path for zero-based task and run indices.
pub fn measurement_path(root: &str, task_index: usize, run_index: usize) -> (path: String)
    requires
        task_index < usize::MAX,
        run_index < usize::MAX,
    ensures
        path@ == run_file(root@, task_index as nat, run_index as nat, ".meas.h5"@),
{
    run_path(root, task_index, run_index, ".meas.h5")
}

/// Returns the first-run dump path for a zero-based task index.
///
/// This is equivalent to `dump_path(dir, index, 0)`.
pub fn checkpoint_path(dir: &str, index: usize) -> (path: String)
    requires
        index < usize::MAX,
    ensures
        path@ == run_file(dir@, index as nat, 0, ".dump.h5"@),
{
    dump_path(dir, index, 0)
}

/// Returns the canonical HDF5 result path.
pub fn result_path(root: &str) -> (path: String)
    ensures
        path@ == join(root@, "result"@),
{
    join_text(root, "result")
}

/// Returns the path of a file that tells the state of a run: `claim`, `done` and the like.
fn run_state_path(root: &str, task_index: usize, run_index: usize, state: &str) -> (path: String)
    requires
        task_index < usize::MAX,
        run_index < usize::MAX,
    ensures
        path@ == run_file(root@, task_index as nat, run_index as nat, "."@ + state@),
{
    let extension = ".".to_owned().concat(state);
    run_path(root, task_index, run_index, extension.as_str())
}

/// Returns the path of the claim on a run.
pub fn claim_path(root: &str, task_index: usize, run_index: usize) -> (path: String)
    requires
        task_index < usize::MAX,
        run_index < usize::MAX,
    ensures
        path@ == run_file(root@, task_index as nat, run_index as nat, "."@ + "claim"@),
{
    run_state_path(root, task_index, run_index, "claim")
}

/// Returns the path of the heartbeat that belongs to the claim on a run.
pub fn heartbeat_path(root: &str, task_index: usize, run_index: usize) -> (path: String)
    requires
        task_index < usize::MAX,
        run_index < usize::MAX,
    ensures
        path@ == run_file(root@, task_index as nat, run_index as nat, "."@ + "heartbeat"@),
{
    run_state_path(root, task_index, run_index, "heartbeat")
}

/// Returns the path of the marker that a run is done.
pub fn done_path(root: &str, task_index: usize, run_index: usize) -> (path: String)
    requires
        task_index < usize::MAX,
        run_index < usize::MAX,
    ensures
        path@ == run_file(root@, task_index as nat, run_index as nat, "."@ + "done"@),
{
    run_state_path(root, task_index, run_index, "done")
}

/// Different task indices have different directories.
pub proof fn law_task_directories_differ(root: Seq<char>, i: nat, j: nat)
    requires
        i != j,
    ensures
        task_directory(root, i) != task_directory(root, j),
{
    lemma_padded_value(i + 1);
    lemma_padded_value(j + 1);
    let a = "task"@ + padded(i + 1);
    let b = "task"@ + padded(j + 1);
    if a == b {
        assert(a.skip("task"@.len() as int) =~= padded(i + 1));
        assert(b.skip("task"@.len() as int) =~= padded(j + 1));
    }
    lemma_join_injective(root, a, b);
}

proof fn lemma_join_injective(root: Seq<char>, a: Seq<char>, b: Seq<char>)
    ensures
        join(root, a) == join(root, b) ==> a == b,
{
    let head = if root.len() == 0 {
        Seq::<char>::empty()
    } else if root.last() == '/' {
        root
    } else {
        root + seq!['/']
    };
    assert(join(root, a) =~= head + a);
    assert(join(root, b) =~= head + b);
    if join(root, a) == join(root, b) {
        assert((head + a).skip(head.len() as int) =~= a);
        assert((head + b).skip(head.len() as int) =~= b);
    }
}

/// The files of a run are told apart by what follows the number: a run has one file of each kind,
/// and files of different kinds never coincide.
pub proof fn law_run_files_differ(
    root: Seq<char>,
    task_index: nat,
    i: nat,
    j: nat,
    a: Seq<char>,
    b: Seq<char>,
)
    requires
        a.len() > 0 && a[0] == '.',
        b.len() > 0 && b[0] == '.',
        i != j || a != b,
    ensures
        run_file(root, task_index, i, a) != run_file(root, task_index, j, b),
{
    let x = padded(i + 1);
    let y = padded(j + 1);
    lemma_padded_value(i + 1);
    lemma_padded_value(j + 1);
    let p = "run"@ + x + a;
    let q = "run"@ + y + b;
    let n = "run"@.len() as int;
    if p == q {
        assert(p[n + x.len() as int] == '.');
        assert(q[n + y.len() as int] == '.');
        if x.len() < y.len() {
            assert(q[n + x.len() as int] == y[x.len() as int]);
            assert(is_digit(y[x.len() as int]));
        }
        if y.len() < x.len() {
            assert(p[n + y.len() as int] == x[y.len() as int]);
            assert(is_digit(x[y.len() as int]));
        }
        assert(p.subrange(n, n + x.len() as int) =~= x);
        assert(q.subrange(n, n + y.len() as int) =~= y);
        assert(p.skip(n + x.len() as int) =~= a);
        assert(q.skip(n + y.len() as int) =~= b);
    }
    lemma_join_injective(task_directory(root, task_index), p, q);
}

/// Whether a character is white space.
pub open spec fn is_white_space(c: char) -> bool {
    ||| '\u{9}' <= c <= '\u{D}'
    ||| c == ' '
    ||| c == '\u{85}'
    ||| c == '\u{A0}'
    ||| c == '\u{1680}'
    ||| '\u{2000}' <= c <= '\u{200A}'
    ||| c == '\u{2028}'
    ||| c == '\u{2029}'
    ||| c == '\u{202F}'
    ||| c == '\u{205F}'
    ||| c == '\u{3000}'
}

/// Whether a character is a control character.
pub open spec fn is_control(c: char) -> bool {
    c <= '\u{1F}' || '\u{7F}' <= c <= '\u{9F}'
}

/// A letter from `A` to `Z` in place of one from `a` to `z`.
pub open spec fn upper(c: char) -> char {
    if 'a' <= c <= 'z' {
        (c as u32 - 32) as char
    } else {
        c
    }
}

/// The part of a name in front of its first dot, in capitals.
pub open spec fn stem(name: Seq<char>) -> Seq<char>
    decreases name.len(),
{
    if name.len() == 0 || name[0] == '.' {
        Seq::empty()
    } else {
        seq![upper(name[0])] + stem(name.drop_first())
    }
}

/// Whether a stem names a device.
pub open spec fn is_device(stem: Seq<char>) -> bool {
    ||| stem == seq!['C', 'O', 'N']
    ||| stem == seq!['P', 'R', 'N']
    ||| stem == seq!['A', 'U', 'X']
    ||| stem == seq!['N', 'U', 'L']
    ||| stem.len() == 4 && '1' <= stem[3] <= '9' && (stem.take(3) == seq!['C', 'O', 'M']
        || stem.take(3) == seq!['L', 'P', 'T'])
}

/// Whether a name is safe as one component of a path: not empty, no white space at its ends, no
/// dot at its end, no separator, colon or control character in it, and not the name of a device.
pub open spec fn is_safe_component(name: Seq<char>) -> bool {
    &&& name.len() > 0
    &&& !is_white_space(name[0])
    &&& !is_white_space(name.last())
    &&& name.last() != '.'
    &&& forall|i: int|
        0 <= i < name.len() ==> ({
            let c = #[trigger] name[i];
            c != '/' && c != '\\' && c != ':' && !is_control(c)
        })
    &&& !is_device(stem(name))
}

/// The part of a path in front of its first separator.
pub open spec fn first_component(path: Seq<char>) -> Seq<char>
    decreases path.len(),
{
    if path.len() == 0 || path[0] == '/' {
        Seq::empty()
    } else {
        seq![path[0]] + first_component(path.drop_first())
    }
}

/// The parts of a path between its separators.
pub open spec fn components(path: Seq<char>) -> Seq<Seq<char>>
    decreases path.len(),
    via components_decreases
{
    let first = first_component(path);
    if first.len() == path.len() {
        seq![first]
    } else {
        seq![first] + components(path.skip(first.len() as int + 1))
    }
}

#[via_fn]
proof fn components_decreases(path: Seq<char>) {
    lemma_first_component(path);
}

proof fn lemma_first_component(path: Seq<char>)
    ensures
        first_component(path).len() <= path.len(),
        first_component(path) == path.take(first_component(path).len() as int),
        forall|i: int| 0 <= i < first_component(path).len() ==> #[trigger] path[i] != '/',
        first_component(path).len() < path.len() ==> path[first_component(path).len() as int]
            == '/',
    decreases path.len(),
{
    let first = first_component(path);
    if path.len() > 0 && path[0] != '/' {
        let rest = path.drop_first();
        lemma_first_component(rest);
        let tail = first_component(rest);
        assert(first =~= path.take(first.len() as int)) by {
            assert forall|i: int| 0 <= i < first.len() implies first[i] == path[i] by {
                if i > 0 {
                    assert(tail[i - 1] == rest.take(tail.len() as int)[i - 1]);
                }
            }
        }
        assert forall|i: int| 0 <= i < first.len() implies #[trigger] path[i] != '/' by {
            if i > 0 {
                assert(rest[i - 1] != '/');
            }
        }
    } else {
        assert(first =~= path.take(0));
    }
}

/// A text up to a place where the first separator stands, or up to its end.
proof fn lemma_first_component_is(path: Seq<char>, end: int)
    requires
        0 <= end <= path.len(),
        forall|i: int| 0 <= i < end ==> #[trigger] path[i] != '/',
        end < path.len() ==> path[end] == '/',
    ensures
        first_component(path) == path.take(end),
{
    lemma_first_component(path);
    let n = first_component(path).len() as int;
    if n < end {
        assert(path[n] == '/');
    }
    if end < n {
        assert(path[end] != '/');
    }
}

/// A path without the separator that makes it absolute.
pub open spec fn relative_part(path: Seq<char>) -> Seq<char> {
    if path.len() > 0 && path[0] == '/' {
        path.drop_first()
    } else {
        path
    }
}

/// Whether every component of a path is safe. One separator in front makes the path absolute and
/// is allowed.
pub open spec fn is_safe_path(path: Seq<char>) -> bool {
    let parts = components(relative_part(path));
    relative_part(path).len() > 0 && forall|i: int|
        0 <= i < parts.len() ==> is_safe_component(#[trigger] parts[i])
}

fn upper_char(c: char) -> (u: char)
    ensures
        u == upper(c),
{
    if 'a' <= c && c <= 'z' {
        ((c as u8) - 32) as char
    } else {
        c
    }
}

fn white_space(c: char) -> (r: bool)
    ensures
        r == is_white_space(c),
{
    ('\u{9}' <= c && c <= '\u{D}') || c == ' ' || c == '\u{85}' || c == '\u{A0}' || c == '\u{1680}'
        || ('\u{2000}' <= c && c <= '\u{200A}') || c == '\u{2028}' || c == '\u{2029}' || c
        == '\u{202F}' || c == '\u{205F}' || c == '\u{3000}'
}

/// The part of a name in front of its first dot, in capitals.
fn stem_of(chars: &Vec<char>, start: usize, end: usize) -> (out: Vec<char>)
    requires
        start <= end <= chars@.len(),
    ensures
        out@ == stem(chars@.subrange(start as int, end as int)),
{
    let mut out: Vec<char> = Vec::new();
    let mut index: usize = start;
    let ghost name = chars@.subrange(start as int, end as int);
    assert(name =~= chars@.subrange(index as int, end as int));
    while index < end
        invariant
            start <= index <= end <= chars@.len(),
            name == chars@.subrange(start as int, end as int),
            stem(name) == out@ + stem(chars@.subrange(index as int, end as int)),
        decreases end - index,
    {
        let ghost rest = chars@.subrange(index as int, end as int);
        let c: char = chars[index];
        assert(rest[0] == c);
        if c == '.' {
            assert(out@ + stem(rest) =~= out@);
            return out;
        }
        assert(rest.drop_first() =~= chars@.subrange(index + 1, end as int));
        let ghost before = out@;
        out.push(upper_char(c));
        assert(out@ + stem(rest.drop_first()) =~= before + stem(rest));
        index = index + 1;
    }
    assert(out@ + stem(chars@.subrange(index as int, end as int)) =~= out@);
    out
}

fn device(stem: &Vec<char>) -> (r: bool)
    ensures
        r == is_device(stem@),
{
    if stem.len() == 3 {
        let (a, b, c) = (stem[0], stem[1], stem[2]);
        assert(stem@ =~= seq![a, b, c]);
        let found = (a == 'C' && b == 'O' && c == 'N') || (a == 'P' && b == 'R' && c == 'N') || (a
            == 'A' && b == 'U' && c == 'X') || (a == 'N' && b == 'U' && c == 'L');
        proof {
            if stem@ == seq!['C', 'O', 'N'] {
                assert(stem@[0] == 'C' && stem@[1] == 'O' && stem@[2] == 'N');
            }
            if stem@ == seq!['P', 'R', 'N'] {
                assert(stem@[0] == 'P' && stem@[1] == 'R' && stem@[2] == 'N');
            }
            if stem@ == seq!['A', 'U', 'X'] {
                assert(stem@[0] == 'A' && stem@[1] == 'U' && stem@[2] == 'X');
            }
            if stem@ == seq!['N', 'U', 'L'] {
                assert(stem@[0] == 'N' && stem@[1] == 'U' && stem@[2] == 'L');
            }
        }
        found
    } else if stem.len() == 4 {
        let (a, b, c, d) = (stem[0], stem[1], stem[2], stem[3]);
        let ghost head = stem@.take(3);
        assert(head =~= seq![a, b, c]);
        proof {
            if head == seq!['C', 'O', 'M'] {
                assert(head[0] == 'C' && head[1] == 'O' && head[2] == 'M');
            }
            if head == seq!['L', 'P', 'T'] {
                assert(head[0] == 'L' && head[1] == 'P' && head[2] == 'T');
            }
        }
        '1' <= d && d <= '9' && ((a == 'C' && b == 'O' && c == 'M') || (a == 'L' && b == 'P' && c
            == 'T'))
    } else {
        false
    }
}

/// Whether a stretch of characters is safe as one component of a path.
fn safe_component(chars: &Vec<char>, start: usize, end: usize) -> (safe: bool)
    requires
        start <= end <= chars@.len(),
    ensures
        safe == is_safe_component(chars@.subrange(start as int, end as int)),
{
    let ghost name = chars@.subrange(start as int, end as int);
    if start == end {
        return false;
    }
    let first: char = chars[start];
    let last: char = chars[end - 1];
    assert(name[0] == first);
    assert(name.last() == last);
    if white_space(first) || white_space(last) || last == '.' {
        return false;
    }
    let mut index: usize = start;
    while index < end
        invariant
            start <= index <= end <= chars@.len(),
            name == chars@.subrange(start as int, end as int),
            forall|i: int|
                0 <= i < index - start ==> ({
                    let c = #[trigger] name[i];
                    c != '/' && c != '\\' && c != ':' && !is_control(c)
                }),
        decreases end - index,
    {
        let c: char = chars[index];
        assert(name[index - start] == c);
        if c == '/' || c == '\\' || c == ':' || c <= '\u{1F}' || ('\u{7F}' <= c && c <= '\u{9F}') {
            return false;
        }
        index = index + 1;
    }
    !device(&stem_of(chars, start, end))
}

/// Checks that a name is safe as one component of a path.
pub fn validate_safe_component(value: &str) -> (checked: Result<(), GenericJobError>)
    ensures
        match checked {
            Ok(_) => is_safe_component(value@),
            Err(e) => !is_safe_component(value@) && (e matches GenericJobError::UnsafePath(p) && p@
                == value@),
        },
{
    let chars = letters(value);
    assert(chars@.subrange(0, chars@.len() as int) =~= value@);
    if safe_component(&chars, 0, chars.len()) {
        Ok(())
    } else {
        Err(GenericJobError::UnsafePath(value.to_owned()))
    }
}

/// Checks that every component of a path is safe.
pub fn validate_safe_path(path: &str) -> (checked: Result<(), GenericJobError>)
    ensures
        match checked {
            Ok(_) => is_safe_path(path@),
            Err(e) => !is_safe_path(path@) && (e matches GenericJobError::UnsafePath(p) && p@
                == path@),
        },
{
    let chars = letters(path);
    let begin: usize = if chars.len() > 0 && chars[0] == '/' {
        1
    } else {
        0
    };
    let ghost body = relative_part(path@);
    assert(body =~= chars@.skip(begin as int));
    if begin == chars.len() {
        return Err(GenericJobError::UnsafePath(path.to_owned()));
    }
    let ghost parts = components(body);
    let mut start: usize = begin;
    let ghost mut done: int = 0;
    loop
        invariant
            begin <= start <= chars@.len(),
            chars@ == path@,
            body == relative_part(path@),
            body.len() > 0,
            parts == components(body),
            0 <= done <= parts.len(),
            parts.skip(done) == components(chars@.skip(start as int)),
            forall|i: int| 0 <= i < done ==> is_safe_component(#[trigger] parts[i]),
        decreases chars@.len() - start,
    {
        let ghost rest = chars@.skip(start as int);
        let mut end: usize = start;
        while end < chars.len() && chars[end] != '/'
            invariant
                start <= end <= chars@.len(),
                rest == chars@.skip(start as int),
                forall|i: int| 0 <= i < end - start ==> #[trigger] rest[i] != '/',
            decreases chars@.len() - end,
        {
            assert(rest[end - start] == chars@[end as int]);
            end = end + 1;
        }
        proof {
            if end < chars@.len() {
                assert(rest[end - start] == chars@[end as int]);
            }
            lemma_first_component_is(rest, end - start);
            assert(rest.take(end - start) =~= chars@.subrange(start as int, end as int));
            assert(components(rest)[0] == chars@.subrange(start as int, end as int));
            assert(components(rest).len() > 0);
            assert(parts.skip(done).len() > 0);
            assert(parts.skip(done)[0] == parts[done]);
        }
        if !safe_component(&chars, start, end) {
            assert(!is_safe_component(parts[done]));
            return Err(GenericJobError::UnsafePath(path.to_owned()));
        }
        if end == chars.len() {
            proof {
                assert(components(rest) =~= seq![rest.take(end - start)]);
                assert(parts.skip(done).len() == 1);
                assert forall|i: int| 0 <= i < parts.len() implies is_safe_component(
                    #[trigger] parts[i],
                ) by {
                    if i >= done {
                        assert(i == done);
                    }
                }
            }
            return Ok(());
        }
        proof {
            assert(rest.skip(end - start + 1) =~= chars@.skip(end + 1));
            assert(components(rest) =~= seq![rest.take(end - start)] + components(
                chars@.skip(end + 1),
            ));
            assert(parts.skip(done + 1) =~= components(chars@.skip(end + 1))) by {
                let tail = parts.skip(done);
                assert(tail.skip(1) =~= parts.skip(done + 1));
                assert(tail.skip(1) =~= components(chars@.skip(end + 1)));
            }
            done = done + 1;
        }
        start = end + 1;
    }
}

/// Checks that a path is relative and that every component of it is safe.
pub fn validate_safe_relative_path(path: &str) -> (checked: Result<(), GenericJobError>)
    ensures
        match checked {
            Ok(_) => is_safe_path(path@) && path@[0] != '/',
            Err(e) => !(is_safe_path(path@) && path@[0] != '/') && (
            e matches GenericJobError::UnsafePath(p) && p@ == path@),
        },
{
    let chars = letters(path);
    if chars.len() > 0 && chars[0] == '/' {
        return Err(GenericJobError::UnsafePath(path.to_owned()));
    }
    validate_safe_path(path)
}

proof fn lemma_components_join(root: Seq<char>, name: Seq<char>)
    requires
        forall|i: int| 0 <= i < name.len() ==> #[trigger] name[i] != '/',
    ensures
        components(root + seq!['/'] + name) == components(root).push(name),
    decreases root.len(),
{
    let whole = root + seq!['/'] + name;
    lemma_first_component(root);
    let first = first_component(root);
    let n = first.len() as int;
    assert forall|i: int| 0 <= i < n implies #[trigger] whole[i] != '/' by {
        assert(whole[i] == root[i]);
    }
    if n == root.len() {
        assert(whole[n] == '/');
        lemma_first_component_is(whole, n);
        assert(whole.take(n) =~= root);
        assert(first =~= root);
        assert(whole.skip(n + 1) =~= name);
        lemma_first_component_is(name, name.len() as int);
        assert(name.take(name.len() as int) =~= name);
        assert(components(name) =~= seq![name]);
        assert(components(whole) =~= seq![root] + components(name));
        assert(components(root) =~= seq![root]);
        assert(components(whole) =~= components(root).push(name));
    } else {
        assert(whole[n] == root[n]);
        lemma_first_component_is(whole, n);
        assert(whole.take(n) =~= first);
        let rest = root.skip(n + 1);
        assert(whole.skip(n + 1) =~= rest + seq!['/'] + name);
        lemma_components_join(rest, name);
        assert(components(whole) =~= seq![first] + components(rest).push(name));
        assert(components(root) =~= seq![first] + components(rest));
        assert(components(whole) =~= components(root).push(name));
    }
}

proof fn lemma_last_component(path: Seq<char>)
    requires
        path.len() > 0,
        path.last() == '/',
    ensures
        components(path).len() > 0,
        components(path).last().len() == 0,
{
    let root = path.drop_last();
    let empty = Seq::<char>::empty();
    assert(path =~= root + seq!['/'] + empty);
    lemma_components_join(root, empty);
}

/// A safe path with one more safe component is a safe path.
pub proof fn law_safe_paths_grow(root: Seq<char>, name: Seq<char>)
    requires
        is_safe_path(root),
        is_safe_component(name),
    ensures
        is_safe_path(join(root, name)),
{
    let body = relative_part(root);
    assert forall|i: int| 0 <= i < name.len() implies #[trigger] name[i] != '/' by {}
    if root.last() == '/' {
        assert(body.len() > 0);
        assert(body.last() == '/');
        lemma_last_component(body);
        let parts = components(body);
        assert(is_safe_component(parts[parts.len() - 1]));
    }
    let grown = join(root, name);
    assert(grown == root + seq!['/'] + name);
    assert(relative_part(grown) =~= body + seq!['/'] + name);
    lemma_components_join(body, name);
    let parts = components(body).push(name);
    assert forall|i: int| 0 <= i < parts.len() implies is_safe_component(#[trigger] parts[i]) by {
        if i < components(body).len() {
            assert(is_safe_component(components(body)[i]));
        }
    }
}

proof fn lemma_stem_length(head: Seq<char>, tail: Seq<char>)
    requires
        forall|i: int| 0 <= i < head.len() ==> #[trigger] head[i] != '.',
    ensures
        stem(head + tail).len() == head.len() + stem(tail).len(),
    decreases head.len(),
{
    if head.len() > 0 {
        let rest = head.drop_first();
        assert forall|i: int| 0 <= i < rest.len() implies #[trigger] rest[i] != '.' by {
            assert(head[i + 1] != '.');
        }
        lemma_stem_length(rest, tail);
        assert((head + tail).drop_first() =~= rest + tail);
    } else {
        assert(head + tail =~= tail);
    }
}

/// Whether a text is a dot and then letters, digits and dots, with no dot at the end.
pub open spec fn is_extension(text: Seq<char>) -> bool {
    &&& text.len() >= 2
    &&& text[0] == '.'
    &&& text.last() != '.'
    &&& forall|i: int|
        0 <= i < text.len() ==> ({
            let c = #[trigger] text[i];
            'a' <= c <= 'z' || '0' <= c <= '9' || c == '.'
        })
}

/// The directories and files that the library names are safe under a safe root.
pub proof fn law_generated_paths_are_safe(
    root: Seq<char>,
    task_index: nat,
    run_index: nat,
    extension: Seq<char>,
)
    requires
        is_safe_path(root),
        is_extension(extension),
    ensures
        is_safe_path(task_directory(root, task_index)),
        is_safe_path(run_file(root, task_index, run_index, extension)),
        is_safe_path(join(root, "result"@)),
{
    reveal_strlit("result");
    let result = "result"@;
    assert(result.last() == 't');
    lemma_stem_length(result, Seq::empty());
    assert(result + Seq::empty() =~= result);
    law_safe_paths_grow(root, result);
    reveal_strlit("task");
    reveal_strlit("run");
    let x = padded(task_index + 1);
    lemma_padded_value(task_index + 1);
    let directory = "task"@ + x;
    assert(is_digit(x[x.len() - 1]));
    assert(directory.last() == x.last());
    assert forall|i: int| 0 <= i < directory.len() implies ({
        let c = #[trigger] directory[i];
        &&& c != '/' && c != '\\' && c != ':' && !is_control(c)
        &&& c != '.'
    }) by {
        if i >= 4 {
            assert(directory[i] == x[i - 4]);
            assert(is_digit(x[i - 4]));
        }
    }
    let empty = Seq::<char>::empty();
    lemma_stem_length(directory, empty);
    assert(directory + empty =~= directory);
    law_safe_paths_grow(root, directory);
    let y = padded(run_index + 1);
    lemma_padded_value(run_index + 1);
    let head = "run"@ + y;
    let file = head + extension;
    assert(file[0] == 'r');
    assert(file.last() == extension.last());
    assert('a' <= extension[extension.len() - 1] <= 'z' || '0' <= extension[extension.len() - 1]
        <= '9' || extension[extension.len() - 1] == '.');
    assert forall|i: int| 0 <= i < head.len() implies #[trigger] head[i] != '.' by {
        if i >= 3 {
            assert(head[i] == y[i - 3]);
            assert(is_digit(y[i - 3]));
        }
    }
    assert forall|i: int| 0 <= i < file.len() implies ({
        let c = #[trigger] file[i];
        c != '/' && c != '\\' && c != ':' && !is_control(c)
    }) by {
        if i >= head.len() {
            assert(file[i] == extension[i - head.len()]);
        } else if i >= 3 {
            assert(file[i] == y[i - 3]);
            assert(is_digit(y[i - 3]));
        }
    }
    lemma_stem_length(head, extension);
    law_safe_paths_grow(task_directory(root, task_index), file);
}

/// Whether a path can be cut after `length` characters: at its end or in front of a separator.
pub open spec fn is_cut(path: Seq<char>, length: int) -> bool {
    0 < length <= path.len() && (length == path.len() || path[length] == '/')
}

/// Whether a list names the directories that lead to a path, from the outermost one on, and then
/// the path itself. The root comes first where the path is absolute.
pub open spec fn leads_to(list: Seq<Seq<char>>, path: Seq<char>) -> bool {
    let first: int = if path.len() > 0 && path[0] == '/' {
        1
    } else {
        0
    };
    &&& list.len() >= first
    &&& first == 1 ==> list[0] == seq!['/']
    &&& forall|k: int|
        first <= k < list.len() ==> is_cut(path, (#[trigger] list[k]).len() as int) && list[k]
            == path.take(list[k].len() as int)
    &&& forall|k: int, m: int|
        first <= k < m < list.len() ==> (#[trigger] list[k]).len() < (#[trigger] list[m]).len()
    &&& forall|n: int| #[trigger]
        is_cut(path, n) ==> exists|k: int| first <= k < list.len() && (#[trigger] list[k]).len()
            == n
}

/// The first characters of a text.
fn text_start(text: &str, chars: &Vec<char>, length: usize) -> (start: String)
    requires
        chars@ == text@,
        length <= chars@.len(),
    ensures
        start@ == text@.take(length as int),
{
    text.substring_char(0, length).to_owned()
}

/// The directories that lead to a path, from the outermost one on, and then the path itself.
/// Whoever opens a path inspects them in this order.
pub fn path_prefixes(path: &str) -> (list: Vec<String>)
    ensures
        leads_to(texts(list@), path@),
{
    let chars = letters(path);
    let mut list: Vec<String> = Vec::new();
    proof {
        reveal_strlit("/");
        assert("/"@ =~= seq!['/']);
    }
    let absolute = chars.len() > 0 && chars[0] == '/';
    if absolute {
        list.push("/".to_owned());
    }
    let ghost first: int = if absolute {
        1
    } else {
        0
    };
    assert(texts(list@).len() == first);
    let mut length: usize = 0;
    while length < chars.len()
        invariant
            length <= chars.len(),
            chars@ == path@,
            absolute == (path@.len() > 0 && path@[0] == '/'),
            first == if absolute {
                1int
            } else {
                0int
            },
            list@.len() >= first,
            first == 1 ==> texts(list@)[0] == seq!['/'],
            forall|k: int|
                first <= k < list@.len() ==> is_cut(
                    path@,
                    (#[trigger] texts(list@)[k]).len() as int,
                ) && texts(list@)[k].len() <= length && texts(list@)[k] == path@.take(
                    texts(list@)[k].len() as int,
                ),
            forall|k: int, m: int|
                first <= k < m < list@.len() ==> (#[trigger] texts(list@)[k]).len() < (
                #[trigger] texts(list@)[m]).len(),
            forall|n: int| #[trigger]
                is_cut(path@, n) && n <= length ==> exists|k: int|
                    first <= k < list@.len() && (#[trigger] texts(list@)[k]).len() == n,
        decreases chars.len() - length,
    {
        let ghost before = texts(list@);
        length = length + 1;
        if length == chars.len() || chars[length] == '/' {
            list.push(text_start(path, &chars, length));
        }
        proof {
            let after = texts(list@);
            assert forall|k: int| 0 <= k < before.len() implies after[k] == before[k] by {}
            assert forall|n: int| #[trigger] is_cut(path@, n) && n <= length implies exists|k: int|
                first <= k < list@.len() && (#[trigger] texts(list@)[k]).len() == n by {
                if n < length {
                    let k = choose|k: int|
                        first <= k < before.len() && (#[trigger] before[k]).len() == n;
                    assert(after[k].len() == n);
                } else {
                    assert(after[after.len() - 1].len() == n);
                }
            }
        }
    }
    list
}

/// The place of the last separator, if there is one.
pub open spec fn is_last_separator(path: Seq<char>, place: int) -> bool {
    &&& 0 <= place < path.len()
    &&& path[place] == '/'
    &&& forall|i: int| place < i < path.len() ==> #[trigger] path[i] != '/'
}

fn last_separator(chars: &Vec<char>) -> (place: Option<usize>)
    ensures
        match place {
            Some(n) => is_last_separator(chars@, n as int),
            None => forall|i: int| 0 <= i < chars@.len() ==> #[trigger] chars@[i] != '/',
        },
{
    let mut index: usize = chars.len();
    while index > 0
        invariant
            index <= chars.len(),
            forall|i: int| index <= i < chars@.len() ==> #[trigger] chars@[i] != '/',
        decreases index,
    {
        index = index - 1;
        if chars[index] == '/' {
            return Some(index);
        }
    }
    None
}

/// The directory that a file stands in: what comes in front of the last separator, the root for a
/// file directly under it, and the working directory where there is no separator.
pub fn parent_path(path: &str) -> (parent: String)
    ensures
        match last_separator_in(path@) {
            Some(n) => if n == 0 {
                parent@ == "/"@
            } else {
                parent@ == path@.take(n)
            },
            None => parent@ == "."@,
        },
{
    let chars = letters(path);
    let place = last_separator(&chars);
    proof {
        lemma_last_separator(path@);
    }
    match place {
        Some(n) => if n == 0 {
            "/".to_owned()
        } else {
            text_start(path, &chars, n)
        },
        None => ".".to_owned(),
    }
}

/// The place of the last separator, if there is one.
pub open spec fn last_separator_in(path: Seq<char>) -> Option<int> {
    if exists|n: int| is_last_separator(path, n) {
        Some(choose|n: int| is_last_separator(path, n))
    } else {
        None
    }
}

proof fn lemma_last_separator(path: Seq<char>)
    ensures
        forall|n: int| #[trigger] is_last_separator(path, n) ==> last_separator_in(path) == Some(n),
        (forall|i: int| 0 <= i < path.len() ==> #[trigger] path[i] != '/') ==> last_separator_in(
            path,
        ) is None,
{
    assert forall|n: int| #[trigger] is_last_separator(path, n) implies last_separator_in(path)
        == Some(n) by {
        let m = choose|m: int| is_last_separator(path, m);
        assert(is_last_separator(path, m));
        if m < n {
            assert(path[n] != '/');
        }
        if n < m {
            assert(path[m] != '/');
        }
    }
}

/// The name of a file: what comes behind the last separator.
pub open spec fn name_part(path: Seq<char>) -> Seq<char> {
    match last_separator_in(path) {
        Some(n) => path.skip(n + 1),
        None => path,
    }
}

/// The name of a file: what comes behind the last separator.
pub fn file_name(path: &str) -> (name: String)
    ensures
        name@ == name_part(path@),
{
    let chars = letters(path);
    let place = last_separator(&chars);
    proof {
        lemma_last_separator(path@);
    }
    match place {
        Some(n) => {
            let length: usize = chars.len();
            let name = path.substring_char(n + 1, length).to_owned();
            assert(name@ =~= path@.skip(n + 1));
            name
        },
        None => path.to_owned(),
    }
}

/// The format of an output file.
#[derive(Debug, Clone, Copy, PartialEq, Eq, Structural)]
pub enum OutputFormat {
    Hdf5,
    Json,
}

/// Whether a path names an HDF5 file: a file called `result`, or one with the extension `h5`.
pub open spec fn names_hdf5(path: Seq<char>) -> bool {
    let name = name_part(path);
    name == "result"@ || name.len() > 3 && name.skip(name.len() - 3) == seq!['.', 'h', '5']
}

/// The format of an output file, by its name.
pub fn output_format(path: &str) -> (format: OutputFormat)
    ensures
        format == if names_hdf5(path@) {
            OutputFormat::Hdf5
        } else {
            OutputFormat::Json
        },
{
    let name = file_name(path);
    let chars = letters(name.as_str());
    let n: usize = chars.len();
    let extension = n > 3 && chars[n - 3] == '.' && chars[n - 2] == 'h' && chars[n - 1] == '5';
    proof {
        let text = name_part(path@);
        if n > 3 {
            let tail = text.skip(n - 3);
            assert(tail.len() == 3);
            assert(tail[0] == chars@[n - 3] && tail[1] == chars@[n - 2] && tail[2] == chars@[n - 1]);
            if extension {
                assert(tail =~= seq!['.', 'h', '5']);
            }
            if tail == seq!['.', 'h', '5'] {
                assert(tail[0] == '.' && tail[1] == 'h' && tail[2] == '5');
            }
        }
    }
    if extension || same_text(name.as_str(), "result") {
        OutputFormat::Hdf5
    } else {
        OutputFormat::Json
    }
}

/// How many names are tried for a temporary file.
pub const TEMP_ATTEMPTS: usize = 128;

/// The name of a temporary file for `prefix`, made by process `pid` with its number `id`.
pub open spec fn temporary_text(prefix: Seq<char>, pid: nat, id: nat) -> Seq<char> {
    "."@ + prefix + ".tmp."@ + decimal(pid) + "."@ + decimal(id)
}

/// The name of a temporary file for `prefix`, made by process `pid` with its number `id`.
pub fn temporary_name(prefix: &str, pid: u32, id: u64) -> (name: String)
    ensures
        name@ == temporary_text(prefix@, pid as nat, id as nat),
{
    ".".to_owned().concat(prefix).concat(".tmp.").concat(
        decimal_text(pid as u128).as_str(),
    ).concat(".").concat(decimal_text(id as u128).as_str())
}

/// What came of creating a temporary file.
#[derive(Debug, Clone, Copy, PartialEq, Eq, Structural)]
pub enum Creation {
    Created,
    AlreadyExists,
    Failed,
}

/// What follows an attempt to create a temporary file.
#[derive(Debug, Clone, Copy, PartialEq, Eq, Structural)]
pub enum Attempt {
    /// The file is there.
    Done,
    /// Try the next name.
    Again,
    /// Report that creating failed.
    Fail,
    /// Report that all names were taken.
    Exhausted,
}

/// What follows attempt number `attempt`, counted from zero: a name that is taken leads to the
/// next one, until all attempts are used up. An existing file is never touched.
pub fn after_attempt(attempt: usize, creation: Creation) -> (next: Attempt)
    ensures
        next == match creation {
            Creation::Created => Attempt::Done,
            Creation::Failed => Attempt::Fail,
            Creation::AlreadyExists => if attempt + 1 < TEMP_ATTEMPTS {
                Attempt::Again
            } else {
                Attempt::Exhausted
            },
        },
{
    match creation {
        Creation::Created => Attempt::Done,
        Creation::Failed => Attempt::Fail,
        Creation::AlreadyExists => if attempt < TEMP_ATTEMPTS - 1 {
            Attempt::Again
        } else {
            Attempt::Exhausted
        },
    }
}

/// The directory of a task is under the root, which brings the separator along or gets one, and
/// counts tasks from one with four digits or more. The result stands beside the directories.
pub proof fn law_task_paths(root: &str, task_index: usize, directory: String, result: String)
    requires
        task_index < usize::MAX,
        call_ensures(task_path, (root, task_index), directory),
        call_ensures(result_path, (root,), result),
    ensures
        root@.len() == 0 ==> directory@ == "task"@ + padded((task_index + 1) as nat),
        root@.len() > 0 && root@.last() == '/' ==> directory@ == root@ + ("task"@ + padded(
            (task_index + 1) as nat,
        )),
        root@.len() > 0 && root@.last() != '/' ==> directory@ == root@ + seq!['/'] + ("task"@
            + padded((task_index + 1) as nat)),
        root@.len() == 0 ==> result@ == "result"@,
        root@.len() > 0 && root@.last() == '/' ==> result@ == root@ + "result"@,
        root@.len() > 0 && root@.last() != '/' ==> result@ == root@ + seq!['/'] + "result"@,
{
}

/// The file of a run stands in the directory of its task.
proof fn lemma_run_file(root: Seq<char>, i: nat, j: nat, extension: Seq<char>)
    ensures
        run_file(root, i, j, extension) == task_directory(root, i) + seq!['/'] + "run"@ + padded(
            j + 1,
        ) + extension,
{
    let number = padded(i + 1);
    lemma_padded_value(i + 1);
    let name = "task"@ + number;
    let directory = task_directory(root, i);
    assert(is_digit(number[number.len() - 1]));
    assert(name.last() == number.last());
    assert(directory.last() == name.last());
    let tail = padded(j + 1);
    assert(directory + seq!['/'] + ("run"@ + tail + extension) =~= directory + seq!['/'] + "run"@
        + tail + extension);
}

/// The files of a run stand in the directory of its task, count runs from one with four digits or
/// more, and are told apart by their extensions.
pub proof fn law_run_paths(
    root: &str,
    task_index: usize,
    run_index: usize,
    directory: String,
    dump: String,
    measurement: String,
    claim: String,
    heartbeat: String,
    done: String,
)
    requires
        task_index < usize::MAX,
        run_index < usize::MAX,
        call_ensures(task_path, (root, task_index), directory),
        call_ensures(dump_path, (root, task_index, run_index), dump),
        call_ensures(measurement_path, (root, task_index, run_index), measurement),
        call_ensures(claim_path, (root, task_index, run_index), claim),
        call_ensures(heartbeat_path, (root, task_index, run_index), heartbeat),
        call_ensures(done_path, (root, task_index, run_index), done),
    ensures
        ({
            let file = directory@ + seq!['/'] + "run"@ + padded((run_index + 1) as nat);
            &&& dump@ == file + ".dump.h5"@
            &&& measurement@ == file + ".meas.h5"@
            &&& claim@ == file + ("."@ + "claim"@)
            &&& heartbeat@ == file + ("."@ + "heartbeat"@)
            &&& done@ == file + ("."@ + "done"@)
        }),
{
    lemma_run_file(root@, task_index as nat, run_index as nat, ".dump.h5"@);
    lemma_run_file(root@, task_index as nat, run_index as nat, ".meas.h5"@);
    lemma_run_file(root@, task_index as nat, run_index as nat, "."@ + "claim"@);
    lemma_run_file(root@, task_index as nat, run_index as nat, "."@ + "heartbeat"@);
    lemma_run_file(root@, task_index as nat, run_index as nat, "."@ + "done"@);
}

/// The checkpoint of a task is the dump of its first run.
pub proof fn law_checkpoints_are_dumps(root: &str, index: usize, checkpoint: String, dump: String)
    requires
        index < usize::MAX,
        call_ensures(checkpoint_path, (root, index), checkpoint),
        call_ensures(dump_path, (root, index, 0), dump),
    ensures
        checkpoint@ == dump@,
{
}

/// Whether a character has no place in a component of a path: a separator, a colon or a control
/// character.
pub open spec fn is_forbidden(c: char) -> bool {
    ||| c == '/'
    ||| c == '\\'
    ||| c == ':'
    ||| c as u32 <= 0x1F
    ||| 0x7F <= c as u32 <= 0x9F
}

/// Whether a character is a letter, large or small.
pub open spec fn is_letter(c: char, large: char, small: char) -> bool {
    c == large || c == small
}

/// Whether the first `n` characters of a name name a device: `con`, `prn`, `aux`, `nul`, or `com`
/// or `lpt` with a digit that is not zero, in large or small letters.
pub open spec fn starts_with_device(s: Seq<char>, n: int) -> bool {
    ||| n == 3 && ({
        ||| is_letter(s[0], 'C', 'c') && is_letter(s[1], 'O', 'o') && is_letter(s[2], 'N', 'n')
        ||| is_letter(s[0], 'P', 'p') && is_letter(s[1], 'R', 'r') && is_letter(s[2], 'N', 'n')
        ||| is_letter(s[0], 'A', 'a') && is_letter(s[1], 'U', 'u') && is_letter(s[2], 'X', 'x')
        ||| is_letter(s[0], 'N', 'n') && is_letter(s[1], 'U', 'u') && is_letter(s[2], 'L', 'l')
    })
    ||| n == 4 && '1' <= s[3] <= '9' && ({
        ||| is_letter(s[0], 'C', 'c') && is_letter(s[1], 'O', 'o') && is_letter(s[2], 'M', 'm')
        ||| is_letter(s[0], 'L', 'l') && is_letter(s[1], 'P', 'p') && is_letter(s[2], 'T', 't')
    })
}

/// The stem of a name ends at its first dot and has capitals in place of small letters.
proof fn lemma_stem(name: Seq<char>, end: int)
    requires
        0 <= end <= name.len(),
        forall|i: int| 0 <= i < end ==> #[trigger] name[i] != '.',
        end < name.len() ==> name[end] == '.',
    ensures
        stem(name).len() == end,
        forall|i: int| 0 <= i < end ==> #[trigger] stem(name)[i] == upper(name[i]),
    decreases end,
{
    if end > 0 {
        let rest = name.drop_first();
        assert(name[0] != '.');
        assert forall|i: int| 0 <= i < end - 1 implies #[trigger] rest[i] != '.' by {
            assert(name[i + 1] != '.');
        }
        lemma_stem(rest, end - 1);
        assert forall|i: int| 0 <= i < end implies #[trigger] stem(name)[i] == upper(name[i]) by {
            if i > 0 {
                assert(stem(name)[i] == stem(rest)[i - 1]);
                assert(rest[i - 1] == name[i]);
            }
        }
    }
}

/// A device is told by its letters, large or small.
proof fn lemma_devices(name: Seq<char>, end: int)
    requires
        0 <= end <= name.len(),
        forall|i: int| 0 <= i < end ==> #[trigger] name[i] != '.',
        end < name.len() ==> name[end] == '.',
    ensures
        is_device(stem(name)) == starts_with_device(name, end),
{
    lemma_stem(name, end);
    let s = stem(name);
    if end == 3 {
        assert(s[0] == upper(name[0]) && s[1] == upper(name[1]) && s[2] == upper(name[2]));
        assert(s =~= seq![s[0], s[1], s[2]]);
        lemma_three(s, 'C', 'O', 'N');
        lemma_three(s, 'P', 'R', 'N');
        lemma_three(s, 'A', 'U', 'X');
        lemma_three(s, 'N', 'U', 'L');
    } else if end == 4 {
        assert(s[0] == upper(name[0]) && s[1] == upper(name[1]) && s[2] == upper(name[2]) && s[3]
            == upper(name[3]));
        lemma_three(s.take(3), 'C', 'O', 'M');
        lemma_three(s.take(3), 'L', 'P', 'T');
    } else {
        assert(s != seq!['C', 'O', 'N'] && s != seq!['P', 'R', 'N'] && s != seq!['A', 'U', 'X'] && s
            != seq!['N', 'U', 'L']) by {
            assert(seq!['C', 'O', 'N'].len() == 3 && seq!['P', 'R', 'N'].len() == 3);
            assert(seq!['A', 'U', 'X'].len() == 3 && seq!['N', 'U', 'L'].len() == 3);
        }
    }
}

proof fn lemma_three(s: Seq<char>, a: char, b: char, c: char)
    ensures
        s == seq![a, b, c] <==> s.len() == 3 && s[0] == a && s[1] == b && s[2] == c,
{
    let t = seq![a, b, c];
    assert(t.len() == 3 && t[0] == a && t[1] == b && t[2] == c);
    if s.len() == 3 && s[0] == a && s[1] == b && s[2] == c {
        assert(s =~= t);
    }
}

/// A name is accepted as a component exactly if it has no white space at its ends, no dot at its
/// end and no forbidden character, and what stands in front of its first dot is no device. What
/// is refused is told.
pub proof fn law_safe_components(
    value: &str,
    checked: Result<(), GenericJobError>,
    dot: int,
)
    requires
        call_ensures(validate_safe_component, (value,), checked),
        0 <= dot <= value@.len(),
        forall|i: int| 0 <= i < dot ==> #[trigger] value@[i] != '.',
        dot < value@.len() ==> value@[dot] == '.',
    ensures
        ({
            let s = value@;
            &&& checked is Ok <==> {
                &&& s.len() > 0
                &&& !is_white_space(s[0])
                &&& !is_white_space(s[s.len() - 1])
                &&& s[s.len() - 1] != '.'
                &&& forall|i: int| 0 <= i < s.len() ==> !is_forbidden(#[trigger] s[i])
                &&& !starts_with_device(s, dot)
            }
            &&& checked matches Err(e) ==> (e matches GenericJobError::UnsafePath(p) && p@ == s)
        }),
{
    let s = value@;
    lemma_devices(s, dot);
    assert(checked is Ok <==> is_safe_component(s));
    if is_safe_component(s) {
        assert forall|i: int| 0 <= i < s.len() implies !is_forbidden(#[trigger] s[i]) by {
            lemma_forbidden(s[i]);
        }
    }
    if forall|i: int| 0 <= i < s.len() ==> !is_forbidden(#[trigger] s[i]) {
        assert forall|i: int| 0 <= i < s.len() implies ({
            let c = #[trigger] s[i];
            c != '/' && c != '\\' && c != ':' && !is_control(c)
        }) by {
            assert(!is_forbidden(s[i]));
            lemma_forbidden(s[i]);
        }
    }
}

/// Control characters by their numbers.
proof fn lemma_forbidden(c: char)
    ensures
        is_forbidden(c) <==> c == '/' || c == '\\' || c == ':' || is_control(c),
{
}

/// The characters that are white space, by their numbers.
pub proof fn law_white_space(c: char)
    ensures
        is_white_space(c) <==> ({
            let n = c as u32;
            ||| 9 <= n <= 13
            ||| n == 32
            ||| n == 0x85
            ||| n == 0xA0
            ||| n == 0x1680
            ||| 0x2000 <= n <= 0x200A
            ||| 0x2028 <= n <= 0x2029
            ||| n == 0x202F
            ||| n == 0x205F
            ||| n == 0x3000
        }),
{
}

/// The names of the directory itself and of the one above are never safe.
pub proof fn law_dots_are_unsafe(value: &str, checked: Result<(), GenericJobError>)
    requires
        call_ensures(validate_safe_component, (value,), checked),
        value@.len() > 0,
        forall|i: int| 0 <= i < value@.len() ==> #[trigger] value@[i] == '.',
    ensures
        checked is Err,
{
    assert(value@[value@.len() - 1] == '.');
}

/// Whether a stretch of a text reaches from one separator to the next, the ends of the text
/// counting as separators.
pub open spec fn is_stretch(path: Seq<char>, start: int, end: int) -> bool {
    &&& 0 <= start <= end <= path.len()
    &&& start == 0 || path[start - 1] == '/'
    &&& end == path.len() || path[end] == '/'
    &&& forall|i: int| start <= i < end ==> #[trigger] path[i] != '/'
}

/// A stretch between separators is a component.
proof fn lemma_stretch_is_component(path: Seq<char>, start: int, end: int) -> (k: int)
    requires
        is_stretch(path, start, end),
    ensures
        0 <= k < components(path).len(),
        components(path)[k] == path.subrange(start, end),
    decreases path.len(),
{
    lemma_first_component(path);
    let first = first_component(path);
    let n = first.len() as int;
    if start == 0 {
        lemma_first_component_is(path, end);
        assert(path.take(end) =~= path.subrange(0, end));
        0
    } else {
        if n == path.len() {
            assert(path[start - 1] != '/');
        }
        if start - 1 < n {
            assert(path[start - 1] != '/');
        }
        let rest = path.skip(n + 1);
        if start == n + 1 {
        } else {
            assert(rest[start - n - 2] == path[start - 1]);
        }
        if end < path.len() {
            assert(rest[end - n - 1] == path[end]);
        }
        assert forall|i: int| start - n - 1 <= i < end - n - 1 implies #[trigger] rest[i] != '/' by {
            assert(path[i + n + 1] != '/');
        }
        let k = lemma_stretch_is_component(rest, start - n - 1, end - n - 1);
        assert(rest.subrange(start - n - 1, end - n - 1) =~= path.subrange(start, end));
        k + 1
    }
}

/// A component is a stretch between separators.
proof fn lemma_component_is_stretch(path: Seq<char>, k: int) -> (stretch: (int, int))
    requires
        0 <= k < components(path).len(),
    ensures
        is_stretch(path, stretch.0, stretch.1),
        components(path)[k] == path.subrange(stretch.0, stretch.1),
    decreases path.len(),
{
    lemma_first_component(path);
    let first = first_component(path);
    let n = first.len() as int;
    if k == 0 {
        assert(path.take(n) =~= path.subrange(0, n));
        (0, n)
    } else {
        let rest = path.skip(n + 1);
        assert(components(path)[k] == components(rest)[k - 1]);
        let inner = lemma_component_is_stretch(rest, k - 1);
        let start = inner.0 + n + 1;
        let end = inner.1 + n + 1;
        if inner.0 > 0 {
            assert(rest[inner.0 - 1] == path[start - 1]);
        }
        if inner.1 < rest.len() {
            assert(rest[inner.1] == path[end]);
        }
        assert forall|i: int| start <= i < end implies #[trigger] path[i] != '/' by {
            assert(rest[i - n - 1] != '/');
        }
        assert(rest.subrange(inner.0, inner.1) =~= path.subrange(start, end));
        (start, end)
    }
}

/// A path that is accepted is not empty behind the separator in front, and each of its components
/// is accepted as one. A relative path has no separator in front besides.
pub proof fn law_safe_paths_have_safe_components(
    path: &str,
    checked: Result<(), GenericJobError>,
    relative: Result<(), GenericJobError>,
    start: int,
    end: int,
    part: &str,
    component: Result<(), GenericJobError>,
    body: Seq<char>,
)
    requires
        call_ensures(validate_safe_path, (path,), checked),
        call_ensures(validate_safe_relative_path, (path,), relative),
        path@.len() > 0 && path@[0] == '/' ==> body == path@.drop_first(),
        path@.len() == 0 || path@[0] != '/' ==> body == path@,
        is_stretch(body, start, end),
        part@ == body.subrange(start, end),
        call_ensures(validate_safe_component, (part,), component),
    ensures
        component is Err ==> checked is Err,
        checked is Ok ==> path@.len() > 0,
        checked is Ok && path@[0] == '/' ==> path@.len() > 1,
        relative is Ok <==> checked is Ok && path@[0] != '/',
        checked matches Err(e) ==> (e matches GenericJobError::UnsafePath(p) && p@ == path@),
        relative matches Err(e) ==> (e matches GenericJobError::UnsafePath(p) && p@ == path@),
{
    let k = lemma_stretch_is_component(body, start, end);
    assert(checked is Ok <==> is_safe_path(path@));
    if checked is Ok {
        assert(is_safe_component(components(body)[k]));
    }
}

/// A path is accepted if it is not empty behind the separator in front and each of its components
/// is accepted as one.
pub proof fn law_paths_of_safe_components_are_safe(
    path: &str,
    checked: Result<(), GenericJobError>,
    body: Seq<char>,
)
    requires
        call_ensures(validate_safe_path, (path,), checked),
        path@.len() > 0 && path@[0] == '/' ==> body == path@.drop_first(),
        path@.len() == 0 || path@[0] != '/' ==> body == path@,
        body.len() > 0,
        forall|start: int, end: int| #[trigger]
            is_stretch(body, start, end) ==> is_safe_component(body.subrange(start, end)),
    ensures
        checked is Ok,
{
    let parts = components(body);
    assert(body == relative_part(path@));
    assert forall|i: int| 0 <= i < parts.len() implies is_safe_component(#[trigger] parts[i]) by {
        let stretch = lemma_component_is_stretch(body, i);
        assert(is_stretch(body, stretch.0, stretch.1));
    }
}

/// The directory and the name of a file make up its path: the name has no separator in it, and with
/// one separator between them, or none behind the root, they are the path. A file without a
/// separator stands in the working directory.
pub proof fn law_files_stand_in_their_directories(path: &str, parent: String, name: String)
    requires
        call_ensures(parent_path, (path,), parent),
        call_ensures(file_name, (path,), name),
    ensures
        forall|i: int| 0 <= i < name@.len() ==> #[trigger] name@[i] != '/',
        (forall|i: int| 0 <= i < path@.len() ==> #[trigger] path@[i] != '/') ==> name@ == path@
            && parent@ == "."@,
        (exists|i: int| 0 <= i < path@.len() && #[trigger] path@[i] == '/') ==> ({
            ||| parent@ == seq!['/'] && path@ == seq!['/'] + name@
            ||| parent@.len() > 0 && path@ == parent@ + seq!['/'] + name@
        }),
{
    reveal_strlit("/");
    assert("/"@ =~= seq!['/']);
    lemma_last_separator(path@);
    if exists|i: int| 0 <= i < path@.len() && #[trigger] path@[i] == '/' {
        let i = choose|i: int| 0 <= i < path@.len() && #[trigger] path@[i] == '/';
        let n = lemma_find_last_separator(path@, i);
        assert(last_separator_in(path@) == Some(n));
        assert(name@ =~= path@.skip(n + 1));
        assert forall|j: int| 0 <= j < name@.len() implies #[trigger] name@[j] != '/' by {
            assert(path@[n + 1 + j] != '/');
        }
        if n == 0 {
            assert(path@ =~= seq!['/'] + name@);
        } else {
            assert(path@ =~= parent@ + seq!['/'] + name@);
        }
    }
}

/// A path with a separator has a last one.
proof fn lemma_find_last_separator(path: Seq<char>, place: int) -> (last: int)
    requires
        0 <= place < path.len(),
        path[place] == '/',
    ensures
        is_last_separator(path, last),
    decreases path.len() - place,
{
    if exists|i: int| place < i < path.len() && #[trigger] path[i] == '/' {
        let i = choose|i: int| place < i < path.len() && #[trigger] path[i] == '/';
        lemma_find_last_separator(path, i)
    } else {
        place
    }
}

/// A file is written as HDF5 if it is called `result` or its name ends in `.h5` with something in
/// front, and as JSON in all other cases.
pub proof fn law_output_formats(path: &str, name: String, format: OutputFormat)
    requires
        call_ensures(output_format, (path,), format),
        call_ensures(file_name, (path,), name),
    ensures
        format is Hdf5 <==> name@ == "result"@ || name@.len() >= 4 && name@[name@.len() - 3] == '.'
            && name@[name@.len() - 2] == 'h' && name@[name@.len() - 1] == '5',
        format is Json <==> !(format is Hdf5),
{
    let n = name@.len() as int;
    if n > 3 {
        let tail = name@.skip(n - 3);
        lemma_three(tail, '.', 'h', '5');
    }
}

/// The directories on the way to a path come before what stands in them. All of them come up, each
/// once, and the path itself is the last one. An absolute path starts at the root.
pub proof fn law_prefixes(path: &str, list: Vec<String>, place: int)
    requires
        call_ensures(path_prefixes, (path,), list),
        path@.len() > 0,
        0 < place < path@.len(),
        path@[place] == '/',
    ensures
        list@.len() > 0,
        list@[list@.len() - 1]@ == path@,
        path@[0] == '/' ==> list@[0]@ == seq!['/'],
        exists|k: int| 0 <= k < list@.len() && (#[trigger] list@[k])@ == path@.take(place),
        forall|k: int|
            0 <= k < list@.len() ==> (#[trigger] list@[k])@.len() <= path@.len() && list@[k]@
                == path@.take(list@[k]@.len() as int),
        forall|k: int, m: int|
            0 <= k < m < list@.len() ==> (#[trigger] list@[k])@.len() <= (
            #[trigger] list@[m])@.len(),
        forall|k: int, m: int|
            1 <= k < m < list@.len() ==> (#[trigger] list@[k])@.len() < (#[trigger] list@[m])@.len(),
{
    let t = texts(list@);
    let n = path@.len() as int;
    let first: int = if path@[0] == '/' {
        1
    } else {
        0
    };
    assert(is_cut(path@, n));
    let last = choose|k: int| first <= k < t.len() && (#[trigger] t[k]).len() == n;
    assert(t[last] == list@[last]@);
    if last < t.len() - 1 {
        assert(t[last].len() < t[t.len() - 1].len());
        assert(is_cut(path@, t[t.len() - 1].len() as int));
    }
    assert(path@.take(n) =~= path@);
    assert(t[t.len() - 1] == list@[list@.len() - 1]@);
    assert(is_cut(path@, place));
    let k = choose|k: int| first <= k < t.len() && (#[trigger] t[k]).len() == place;
    assert(list@[k]@ == t[k]);
    assert(path@[0] == '/' ==> t[0] == list@[0]@ && t[0] =~= path@.take(1));
    assert forall|k: int| 0 <= k < list@.len() implies (#[trigger] list@[k])@.len() <= path@.len()
        && list@[k]@ == path@.take(list@[k]@.len() as int) by {
        assert(t[k] == list@[k]@);
        assert(seq!['/'].len() == 1);
    }
    assert forall|k: int, m: int| first <= k < m < list@.len() implies (#[trigger] list@[k])@.len()
        < (#[trigger] list@[m])@.len() by {
        assert(t[k].len() < t[m].len());
    }
    assert forall|k: int, m: int| 0 <= k < m < list@.len() implies (#[trigger] list@[k])@.len() <= (
    #[trigger] list@[m])@.len() by {
        assert(t[k] == list@[k]@ && t[m] == list@[m]@);
        if k < first {
            assert(is_cut(path@, t[m].len() as int));
            assert(seq!['/'].len() == 1);
        }
    }
}

/// A temporary file is hidden: its name starts with a dot. Behind the prefix stand the process and
/// the number, in decimal, and two files of one prefix have one name only if they agree in both.
pub proof fn law_temporary_names(
    prefix: &str,
    pid: u32,
    id: u64,
    name: String,
    pid2: u32,
    id2: u64,
    name2: String,
)
    requires
        call_ensures(temporary_name, (prefix, pid, id), name),
        call_ensures(temporary_name, (prefix, pid2, id2), name2),
    ensures
        name@ == "."@ + prefix@ + ".tmp."@ + decimal(pid as nat) + "."@ + decimal(id as nat),
        name@.len() > 0 && name@[0] == '.',
        name@ == name2@ ==> pid == pid2 && id == id2,
{
    reveal_strlit(".");
    assert("."@ =~= seq!['.']);
    let head = "."@ + prefix@ + ".tmp."@;
    if name@ == name2@ {
        lemma_dotted_numbers(head, pid as nat, id as nat, pid2 as nat, id2 as nat);
    }
}

/// Two numbers with a dot between them are told apart by what they say.
proof fn lemma_dotted_numbers(head: Seq<char>, a: nat, b: nat, c: nat, d: nat)
    requires
        head + decimal(a) + seq!['.'] + decimal(b) == head + decimal(c) + seq!['.'] + decimal(d),
    ensures
        a == c,
        b == d,
{
    lemma_decimal_value(a);
    lemma_decimal_value(b);
    lemma_decimal_value(c);
    lemma_decimal_value(d);
    let x = head + decimal(a) + seq!['.'] + decimal(b);
    let y = head + decimal(c) + seq!['.'] + decimal(d);
    let n = head.len() as int;
    let p = decimal(a).len() as int;
    let q = decimal(c).len() as int;
    assert(x[n + p] == '.');
    assert(y[n + q] == '.');
    if p < q {
        assert(y[n + p] == decimal(c)[p]);
        assert(is_digit(decimal(c)[p]));
    }
    if q < p {
        assert(x[n + q] == decimal(a)[q]);
        assert(is_digit(decimal(a)[q]));
    }
    assert(x.subrange(n, n + p) =~= decimal(a));
    assert(y.subrange(n, n + q) =~= decimal(c));
    assert(x.skip(n + p + 1) =~= decimal(b));
    assert(y.skip(n + q + 1) =~= decimal(d));
}

/// A name that is taken leads to another one as long as fewer than a hundred and twenty-eight were
/// tried. A file that was created ends the search, and so does any other failure.
pub proof fn law_attempts(attempt: usize, creation: Creation, next: Attempt)
    requires
        call_ensures(after_attempt, (attempt, creation), next),
    ensures
        next is Done <==> creation is Created,
        next is Fail <==> creation is Failed,
        next is Again <==> creation is AlreadyExists && attempt < 127,
        next is Exhausted <==> creation is AlreadyExists && attempt >= 127,
{
}

} // verus!
