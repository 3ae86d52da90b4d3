//! Files and directory trees that are moved between host and device: how paths on one side become
//! paths on the other, and what is counted.

use vstd::prelude::*;
use vstd::string::*;
use crate::client::ExecResult;
use crate::shell;
use crate::text;

verus! {

pub const MAX_TRANSFER_JOBS: usize = 16;

/// How many files are moved at a time where `jobs` are asked for.
pub open spec fn job_limit(jobs: usize) -> usize {
    if jobs < 1 {
        1
    } else if jobs > MAX_TRANSFER_JOBS {
        MAX_TRANSFER_JOBS
    } else {
        jobs
    }
}

/// How many files are moved at a time.
pub fn transfer_jobs(jobs: usize) -> (r: usize)
    ensures
        r == job_limit(jobs),
{
    if jobs < 1 {
        1
    } else if jobs > MAX_TRANSFER_JOBS {
        MAX_TRANSFER_JOBS
    } else {
        jobs
    }
}

/// What was moved.
#[derive(Debug, Clone, Copy, PartialEq, Eq, Structural)]
pub struct Totals {
    pub files: u64,
    pub bytes: u64,
}

impl Totals {
    pub fn new() -> (r: Totals)
        ensures
            r == (Totals { files: 0, bytes: 0 }),
    {
        Totals { files: 0, bytes: 0 }
    }

    /// Counts a file that was moved.
    pub fn add_file(&mut self, transferred: u64) -> (r: Result<(), String>)
        requires
            old(self).files < u64::MAX,
        ensures
            final(self).files == old(self).files + 1,
            match r {
                Ok(_) => final(self).bytes == old(self).bytes + transferred,
                Err(message) => old(self).bytes + transferred > u64::MAX && final(self).bytes
                    == old(self).bytes && message@ == "transfer byte count overflow"@,
            },
    {
        self.files = self.files + 1;
        match self.bytes.checked_add(transferred) {
            Some(total) => {
                self.bytes = total;
                Ok(())
            },
            None => Err(String::from_str("transfer byte count overflow")),
        }
    }
}

/// The text without the slashes at its end.
pub open spec fn without_end_slashes(s: Seq<char>) -> Seq<char>
    decreases s.len(),
{
    if s.len() > 0 && s.last() == '/' {
        without_end_slashes(s.drop_last())
    } else {
        s
    }
}

/// The text without the slashes at its beginning.
pub open spec fn without_start_slashes(s: Seq<char>) -> Seq<char>
    decreases s.len(),
{
    if s.len() > 0 && s[0] == '/' {
        without_start_slashes(s.drop_first())
    } else {
        s
    }
}

fn cut_end_slashes(s: &[char]) -> (r: Vec<char>)
    ensures
        r@ == without_end_slashes(s@),
{
    let mut to: usize = s.len();
    assert(s@.take(to as int) =~= s@);
    while to > 0 && s[to - 1] == '/'
        invariant
            to <= s@.len(),
            without_end_slashes(s@) == without_end_slashes(s@.take(to as int)),
        decreases to,
    {
        proof {
            assert(s@.take(to as int).last() == s@[to - 1]);
            assert(s@.take(to as int).drop_last() =~= s@.take(to - 1));
        }
        to -= 1;
    }
    proof {
        if to > 0 {
            assert(s@.take(to as int).last() == s@[to - 1]);
        }
        assert(s@.subrange(0, to as int) =~= s@.take(to as int));
    }
    text::copy_range(s, 0, to)
}

fn cut_start_slashes(s: &[char]) -> (r: Vec<char>)
    ensures
        r@ == without_start_slashes(s@),
{
    let mut from: usize = 0;
    assert(s@.skip(0) =~= s@);
    while from < s.len() && s[from] == '/'
        invariant
            from <= s@.len(),
            without_start_slashes(s@) == without_start_slashes(s@.skip(from as int)),
        decreases s@.len() - from,
    {
        proof {
            assert(s@.skip(from as int)[0] == s@[from as int]);
            assert(s@.skip(from as int).drop_first() =~= s@.skip(from + 1));
        }
        from += 1;
    }
    proof {
        if from < s@.len() {
            assert(s@.skip(from as int)[0] == s@[from as int]);
        }
        assert(s@.subrange(from as int, s@.len() as int) =~= s@.skip(from as int));
    }
    text::copy_range(s, from, s.len())
}

/// A part of a local path.
#[derive(Debug)]
pub enum PathPart {
    Name(String),
    /// The directory itself.
    Current,
    /// A root, a drive, or the directory above.
    Other,
}

/// The names in a local path; `None` where it holds anything else.
pub open spec fn names_of(parts: Seq<PathPart>) -> Option<Seq<Seq<char>>>
    decreases parts.len(),
{
    if parts.len() == 0 {
        Some(Seq::empty())
    } else {
        match names_of(parts.drop_last()) {
            None => None,
            Some(names) => match parts.last() {
                PathPart::Name(name) => Some(names.push(name@)),
                PathPart::Current => Some(names),
                PathPart::Other => None,
            },
        }
    }
}

/// A path on the device: each name behind a slash, after a base without slashes at its end; the
/// root alone keeps its slash.
pub open spec fn remote_path(base: Seq<char>, names: Seq<Seq<char>>) -> Seq<char>
    decreases names.len(),
{
    if names.len() == 0 {
        if base == "/"@ {
            base
        } else {
            without_end_slashes(base)
        }
    } else {
        let before = remote_path(base, names.drop_last());
        if before.len() > 0 && before.last() == '/' {
            before + names.last()
        } else {
            before.push('/') + names.last()
        }
    }
}

proof fn lemma_names_stay_refused(parts: Seq<PathPart>, n: int)
    requires
        0 <= n <= parts.len(),
        names_of(parts.take(n)) is None,
    ensures
        names_of(parts) is None,
    decreases parts.len(),
{
    if n < parts.len() {
        assert(parts.drop_last().take(n) =~= parts.take(n));
        lemma_names_stay_refused(parts.drop_last(), n);
    } else {
        assert(parts.take(n) =~= parts);
    }
}

/// Where a local path goes below a base on the device.
pub fn remote_join(base: &str, relative: &[PathPart], shown: &str) -> (r: Result<String, String>)
    ensures
        match r {
            Ok(path) => names_of(relative@) is Some && path@ == remote_path(
                base@,
                names_of(relative@)->0,
            ),
            Err(message) => names_of(relative@) is None && message@
                == "unsupported local path component in "@ + shown@,
        },
{
    let chars = text::chars_of(base);
    let mut out: Vec<char> = if text::equal(base, "/") {
        chars
    } else {
        cut_end_slashes(chars.as_slice())
    };
    let mut i: usize = 0;
    let ghost mut names: Seq<Seq<char>> = Seq::empty();
    assert(relative@.take(0) =~= Seq::<PathPart>::empty());
    while i < relative.len()
        invariant
            i <= relative@.len(),
            names_of(relative@.take(i as int)) == Some(names),
            out@ == remote_path(base@, names),
        decreases relative@.len() - i,
    {
        proof {
            assert(relative@.take(i + 1).drop_last() =~= relative@.take(i as int));
            assert(relative@.take(i + 1).last() == relative@[i as int]);
        }
        match &relative[i] {
            PathPart::Name(name) => {
                let n: usize = out.len();
                let ends = n > 0 && out[n - 1] == '/';
                let ghost before = out@;
                if !ends {
                    out.push('/');
                }
                let mut more = text::chars_of(name.as_str());
                out.append(&mut more);
                proof {
                    let after = names.push(name@);
                    assert(after.drop_last() =~= names);
                    names = after;
                }
            },
            PathPart::Current => {},
            PathPart::Other => {
                proof {
                    lemma_names_stay_refused(relative@, i + 1);
                }
                return Err(text::cat2("unsupported local path component in ", shown));
            },
        }
        i += 1;
    }
    assert(relative@.take(i as int) =~= relative@);
    Ok(text::string_of(out.as_slice()))
}

/// Whether a text begins like the name of a drive.
pub open spec fn has_drive(part: Seq<char>) -> bool {
    part.len() >= 2 && part[1] == ':' && ('a' <= part[0] <= 'z' || 'A' <= part[0] <= 'Z')
}

/// Whether some text is nothing but separators and names of the directory itself.
pub open spec fn goes_nowhere(pieces: Seq<Seq<char>>) -> bool {
    forall|i: int|
        0 <= i < pieces.len() ==> (#[trigger] pieces[i]).len() == 0 || pieces[i] == "."@
}

/// The one name that a part of a remote path is as a local path. Where a backslash separates
/// names, it may not lead on, and a drive is no name.
pub open spec fn plain_name(part: Seq<char>, windows: bool) -> Option<Seq<char>> {
    if !windows {
        if part == ".."@ {
            None
        } else {
            Some(part)
        }
    } else {
        let pieces = text::split(part, '\\');
        if has_drive(part) || pieces[0].len() == 0 || pieces[0] == "."@ || pieces[0] == ".."@
            || !goes_nowhere(pieces.drop_first()) {
            None
        } else {
            Some(pieces[0])
        }
    }
}

fn as_plain_name(part: &[char], windows: bool) -> (r: Option<String>)
    ensures
        match r {
            Some(name) => plain_name(part@, windows) == Some(name@),
            None => plain_name(part@, windows) is None,
        },
{
    if !windows {
        let whole = text::string_of(part);
        if text::equal(whole.as_str(), "..") {
            return None;
        }
        return Some(whole);
    }
    if part.len() >= 2 && part[1] == ':' && ('a' <= part[0] && part[0] <= 'z' || 'A' <= part[0]
        && part[0] <= 'Z') {
        return None;
    }
    let pieces = text::split_chars(part, '\\');
    let ghost all = text::contents(pieces@);
    proof {
        text::lemma_split_joins(part@, '\\');
        assert(all[0] == pieces@[0]@);
    }
    let name = text::string_of(pieces[0].as_slice());
    if pieces[0].len() == 0 || text::equal(name.as_str(), ".") || text::equal(name.as_str(), "..") {
        return None;
    }
    let mut i: usize = 1;
    while i < pieces.len()
        invariant
            windows,
            1 <= i <= pieces@.len(),
            all == text::contents(pieces@),
            all == text::split(part@, '\\'),
            forall|j: int|
                0 <= j < i - 1 ==> (#[trigger] all.drop_first()[j]).len() == 0
                    || all.drop_first()[j] == "."@,
        decreases pieces@.len() - i,
    {
        assert(all.drop_first()[i - 1] == pieces@[i as int]@);
        let piece = text::string_of(pieces[i].as_slice());
        if pieces[i].len() > 0 && !text::equal(piece.as_str(), ".") {
            assert(!goes_nowhere(all.drop_first()));
            return None;
        }
        i += 1;
    }
    assert(goes_nowhere(all.drop_first()));
    Some(name)
}

/// What is left of a remote path below a root; `None` where it lies outside.
pub open spec fn below(root: Seq<char>, path: Seq<char>) -> Option<Seq<char>> {
    let stem = without_end_slashes(root);
    if stem.len() == 0 {
        Some(without_start_slashes(path))
    } else {
        match text::strip_prefix(path, stem) {
            Some(rest) => Some(without_start_slashes(rest)),
            None => None,
        }
    }
}

/// The local names for the parts of a remote path; `None` where one of them is none.
pub open spec fn local_names(parts: Seq<Seq<char>>, windows: bool) -> Option<Seq<Seq<char>>>
    decreases parts.len(),
{
    if parts.len() == 0 {
        Some(Seq::empty())
    } else {
        match local_names(parts.drop_last(), windows) {
            None => None,
            Some(names) => if parts.last().len() == 0 || parts.last() == "."@ {
                Some(names)
            } else {
                match plain_name(parts.last(), windows) {
                    Some(name) => Some(names.push(name)),
                    None => None,
                }
            },
        }
    }
}

proof fn lemma_local_stays_refused(parts: Seq<Seq<char>>, windows: bool, n: int)
    requires
        0 <= n <= parts.len(),
        local_names(parts.take(n), windows) is None,
    ensures
        local_names(parts, windows) is None,
    decreases parts.len(),
{
    if n < parts.len() {
        assert(parts.drop_last().take(n) =~= parts.take(n));
        lemma_local_stays_refused(parts.drop_last(), windows, n);
    } else {
        assert(parts.take(n) =~= parts);
    }
}

/// Where a file below a remote root goes, as names below a local directory.
pub fn local_relative(remote_root: &str, remote_path: &str, windows: bool) -> (r: Result<
    Vec<String>,
    String,
>)
    ensures
        match below(remote_root@, remote_path@) {
            None => r matches Err(message) && message@ == "'"@ + remote_path@ + "' is outside '"@
                + remote_root@ + "'"@,
            Some(rest) => match (r, local_names(text::split(rest, '/'), windows)) {
                (Ok(names), Some(wanted)) => shell::views(names@) == wanted,
                (Err(message), None) => message@ == "unsafe remote path '"@ + remote_path@ + "'"@,
                _ => false,
            },
        },
{
    let root = text::chars_of(remote_root);
    let path = text::chars_of(remote_path);
    let stem = cut_end_slashes(root.as_slice());
    let relative: Vec<char> = if stem.len() == 0 {
        cut_start_slashes(path.as_slice())
    } else {
        let stem_text = text::string_of(stem.as_slice());
        match text::after_prefix(path.as_slice(), stem_text.as_str()) {
            Some(rest) => cut_start_slashes(rest.as_slice()),
            None => {
                let mut message = text::cat4("'", remote_path, "' is outside '", remote_root);
                message.append("'");
                return Err(message);
            },
        }
    };
    let parts = text::split_chars(relative.as_slice(), '/');
    let ghost all = text::contents(parts@);
    let mut names: Vec<String> = Vec::new();
    let mut i: usize = 0;
    assert(all.take(0) =~= Seq::<Seq<char>>::empty());
    assert(shell::views(names@) =~= Seq::<Seq<char>>::empty());
    while i < parts.len()
        invariant
            i <= parts@.len(),
            all == text::contents(parts@),
            all == text::split(relative@, '/'),
            below(remote_root@, remote_path@) == Some(relative@),
            local_names(all.take(i as int), windows) == Some(shell::views(names@)),
        decreases parts@.len() - i,
    {
        let ghost before = shell::views(names@);
        proof {
            assert(all.take(i + 1).drop_last() =~= all.take(i as int));
            assert(all.take(i + 1).last() == parts@[i as int]@);
        }
        let part = text::string_of(parts[i].as_slice());
        if parts[i].len() > 0 && !text::equal(part.as_str(), ".") {
            match as_plain_name(parts[i].as_slice(), windows) {
                Some(name) => {
                    let ghost added = name@;
                    names.push(name);
                    assert(shell::views(names@) =~= before.push(added));
                },
                None => {
                    proof {
                        lemma_local_stays_refused(all, windows, i + 1);
                    }
                    return Err(text::cat3("unsafe remote path '", remote_path, "'"));
                },
            }
        }
        i += 1;
    }
    assert(all.take(i as int) =~= all);
    Ok(names)
}

/// A name that stands for one file or directory on both sides.
pub open spec fn ordinary(name: Seq<char>) -> bool {
    name.len() > 0 && name != "."@ && name != ".."@ && !name.contains('/')
}

/// A name that stands for one file or directory on both sides; where a backslash separates local
/// names and drives have names, it holds neither.
pub open spec fn ordinary_locally(name: Seq<char>, windows: bool) -> bool {
    ordinary(name) && (windows ==> !name.contains('\\') && !has_drive(name))
}

proof fn lemma_split_parts(s: Seq<char>, separator: char)
    ensures
        text::split(s, separator).len() > 0,
        forall|i: int|
            0 <= i < text::split(s, separator).len() ==> !(#[trigger] text::split(
                s,
                separator,
            )[i]).contains(separator),
    decreases s.len(),
{
    if s.len() > 0 {
        lemma_split_parts(s.drop_last(), separator);
        let before = text::split(s.drop_last(), separator);
        let parts = text::split(s, separator);
        assert forall|i: int| 0 <= i < parts.len() implies !(#[trigger] parts[i]).contains(
            separator,
        ) by {
            if i < parts.len() - 1 {
                assert(parts[i] == before[i]);
            } else if s.last() != separator {
                assert(parts[i] == before.last().push(s.last()));
                assert(!before[before.len() - 1].contains(separator));
                if parts[i].contains(separator) {
                    let k = parts[i].index_of(separator);
                    assert(parts[i][k] == separator);
                    assert(k < before.last().len());
                    assert(before.last()[k] == separator);
                }
            }
        }
    } else {
        assert(text::split(s, separator) =~= seq![Seq::<char>::empty()]);
    }
}

proof fn lemma_first_piece(s: Seq<char>, separator: char)
    ensures
        text::split(s, separator).len() > 0,
        text::split(s, separator)[0].len() <= s.len(),
        text::split(s, separator)[0] == s.take(text::split(s, separator)[0].len() as int),
    decreases s.len(),
{
    let first = text::split(s, separator)[0];
    if s.len() > 0 {
        let init = s.drop_last();
        lemma_first_piece(init, separator);
        let before = text::split(init, separator);
        if s.last() != separator && before.len() == 1 {
            text::lemma_split_joins(init, separator);
            assert(before[0] =~= init);
            assert(first =~= s);
            assert(s.take(s.len() as int) =~= s);
        } else {
            assert(first == before[0]);
            assert(init.take(first.len() as int) =~= s.take(first.len() as int));
        }
    } else {
        assert(first =~= s.take(0));
    }
}

proof fn lemma_plain_is_ordinary(part: Seq<char>, windows: bool)
    requires
        part.len() > 0,
        part != "."@,
        !part.contains('/'),
        plain_name(part, windows) is Some,
    ensures
        ordinary_locally(plain_name(part, windows)->0, windows),
{
    if windows {
        let name = text::split(part, '\\')[0];
        lemma_first_piece(part, '\\');
        lemma_split_parts(part, '\\');
        if name.contains('/') {
            let k = name.index_of('/');
            assert(part[k] == '/');
        }
        if has_drive(name) {
            assert(part[0] == name[0] && part[1] == name[1]);
        }
    }
}

proof fn lemma_local_names_ordinary(parts: Seq<Seq<char>>, windows: bool)
    requires
        local_names(parts, windows) is Some,
        forall|i: int| 0 <= i < parts.len() ==> !(#[trigger] parts[i]).contains('/'),
    ensures
        forall|i: int|
            0 <= i < local_names(parts, windows)->0.len() ==> ordinary_locally(
                #[trigger] local_names(parts, windows)->0[i],
                windows,
            ),
    decreases parts.len(),
{
    if parts.len() > 0 {
        let init = parts.drop_last();
        assert forall|i: int| 0 <= i < init.len() implies !(#[trigger] init[i]).contains('/') by {
            assert(init[i] == parts[i]);
        }
        lemma_local_names_ordinary(init, windows);
        let names = local_names(parts, windows)->0;
        let before = local_names(init, windows)->0;
        let last = parts[parts.len() - 1];
        assert(!last.contains('/'));
        if last.len() > 0 && last != "."@ {
            lemma_plain_is_ordinary(last, windows);
        }
        assert forall|i: int| 0 <= i < names.len() implies ordinary_locally(
            #[trigger] names[i],
            windows,
        ) by {
            if i < before.len() {
                assert(names[i] == before[i]);
            }
        }
    }
}

/// What a device reports never leads out of the local directory: every name is that of one file
/// or directory, none goes up, and none holds a separator or a drive of the local system.
pub proof fn lemma_pull_stays_inside(root: Seq<char>, path: Seq<char>, windows: bool)
    requires
        below(root, path) is Some,
        local_names(text::split(below(root, path)->0, '/'), windows) is Some,
    ensures
        ({
            let names = local_names(text::split(below(root, path)->0, '/'), windows)->0;
            forall|i: int| 0 <= i < names.len() ==> ordinary_locally(#[trigger] names[i], windows)
        }),
{
    lemma_split_parts(below(root, path)->0, '/');
    lemma_local_names_ordinary(text::split(below(root, path)->0, '/'), windows);
}

/// What stands behind a separator and holds none is a piece of its own, behind the pieces before.
pub proof fn lemma_split_push(s: Seq<char>, separator: char, tail: Seq<char>)
    requires
        !tail.contains(separator),
    ensures
        text::split(s.push(separator) + tail, separator) == text::split(s, separator).push(tail),
    decreases tail.len(),
{
    let whole = s.push(separator) + tail;
    if tail.len() == 0 {
        assert(tail =~= Seq::<char>::empty());
        assert(whole =~= s.push(separator));
        assert(whole.drop_last() =~= s);
        assert(text::split(whole, separator) =~= text::split(s, separator).push(tail));
    } else {
        let init = tail.drop_last();
        assert(!init.contains(separator)) by {
            if init.contains(separator) {
                let k = init.index_of(separator);
                assert(tail[k] == separator);
            }
        }
        lemma_split_push(s, separator, init);
        assert(whole.drop_last() =~= s.push(separator) + init);
        assert(whole.last() == tail.last());
        assert(tail.last() != separator) by {
            if tail[tail.len() - 1] == separator {
                assert(tail.contains(separator));
            }
        }
        let before = text::split(whole.drop_last(), separator);
        assert(before.drop_last() =~= text::split(s, separator));
        assert(before.last() == init);
        assert(init.push(tail.last()) =~= tail);
        assert(text::split(whole, separator) =~= text::split(s, separator).push(tail));
    }
}

/// Names, each but the first behind a slash.
pub open spec fn slashed(names: Seq<Seq<char>>) -> Seq<char>
    decreases names.len(),
{
    if names.len() == 0 {
        Seq::empty()
    } else if names.len() == 1 {
        names[0]
    } else {
        slashed(names.drop_last()).push('/') + names.last()
    }
}

/// A text without the separator is one piece.
pub proof fn lemma_single_split(name: Seq<char>, separator: char)
    requires
        !name.contains(separator),
    ensures
        text::split(name, separator) == seq![name],
    decreases name.len(),
{
    if name.len() > 0 {
        let init = name.drop_last();
        assert(!init.contains(separator)) by {
            if init.contains(separator) {
                let k = init.index_of(separator);
                assert(name[k] == separator);
            }
        }
        lemma_single_split(init, separator);
        assert(name.last() != separator) by {
            if name[name.len() - 1] == separator {
                assert(name.contains(separator));
            }
        }
        assert(init.push(name.last()) =~= name);
        assert(text::split(name, separator) =~= seq![name]);
    } else {
        assert(name =~= Seq::<char>::empty());
    }
}

proof fn lemma_slashed_splits(names: Seq<Seq<char>>)
    requires
        names.len() > 0,
        forall|i: int| 0 <= i < names.len() ==> ordinary(#[trigger] names[i]),
    ensures
        text::split(slashed(names), '/') == names,
        slashed(names).len() > 0,
        slashed(names)[0] != '/',
        slashed(names).last() != '/',
    decreases names.len(),
{
    assert(ordinary(names[0]));
    assert(ordinary(names[names.len() - 1]));
    let last = names.last();
    assert(last.last() != '/') by {
        if last.last() == '/' {
            assert(last.contains(last[last.len() - 1]));
        }
    }
    if names.len() == 1 {
        lemma_single_split(names[0], '/');
        assert(names[0][0] != '/') by {
            if names[0][0] == '/' {
                assert(names[0].contains(names[0][0]));
            }
        }
        assert(seq![names[0]] =~= names);
    } else {
        let init = names.drop_last();
        assert forall|i: int| 0 <= i < init.len() implies ordinary(#[trigger] init[i]) by {
            assert(init[i] == names[i]);
        }
        lemma_slashed_splits(init);
        lemma_split_push(slashed(init), '/', last);
        assert(init.push(last) =~= names);
        assert(slashed(names)[0] == slashed(init)[0]);
    }
}

proof fn lemma_local_names_keep(names: Seq<Seq<char>>, windows: bool)
    requires
        forall|i: int| 0 <= i < names.len() ==> ordinary_locally(#[trigger] names[i], windows),
    ensures
        local_names(names, windows) == Some(names),
    decreases names.len(),
{
    if names.len() > 0 {
        let init = names.drop_last();
        assert forall|i: int| 0 <= i < init.len() implies ordinary_locally(
            #[trigger] init[i],
            windows,
        ) by {
            assert(init[i] == names[i]);
        }
        lemma_local_names_keep(init, windows);
        let last = names[names.len() - 1];
        assert(ordinary_locally(last, windows));
        if windows {
            lemma_single_split(last, '\\');
            assert(text::split(last, '\\').drop_first() =~= Seq::<Seq<char>>::empty());
        }
        assert(plain_name(last, windows) == Some(last));
        assert(init.push(last) =~= names);
    } else {
        assert(names =~= Seq::<Seq<char>>::empty());
    }
}

proof fn lemma_end_slashes(s: Seq<char>)
    ensures
        without_end_slashes(s).len() <= s.len(),
        without_end_slashes(s) == s.take(without_end_slashes(s).len() as int),
        without_end_slashes(s).len() > 0 ==> without_end_slashes(s).last() != '/',
    decreases s.len(),
{
    if s.len() > 0 && s.last() == '/' {
        lemma_end_slashes(s.drop_last());
        let n = without_end_slashes(s).len() as int;
        assert(s.drop_last().take(n) =~= s.take(n));
    } else {
        assert(s.take(s.len() as int) =~= s);
    }
}

proof fn lemma_remote_path_shape(base: Seq<char>, names: Seq<Seq<char>>)
    requires
        names.len() > 0,
        forall|i: int| 0 <= i < names.len() ==> ordinary(#[trigger] names[i]),
    ensures
        remote_path(base, names) == without_end_slashes(base).push('/') + slashed(names),
    decreases names.len(),
{
    let stem = without_end_slashes(base);
    lemma_end_slashes(base);
    reveal_strlit("/");
    let init = names.drop_last();
    assert forall|i: int| 0 <= i < init.len() implies ordinary(#[trigger] init[i]) by {
        assert(init[i] == names[i]);
    }
    if names.len() == 1 {
        assert(init =~= Seq::<Seq<char>>::empty());
        let before = remote_path(base, init);
        if base == "/"@ {
            assert(base.drop_last() =~= Seq::<char>::empty());
            assert(stem =~= Seq::<char>::empty());
            assert(before =~= seq!['/']);
            assert(before + names[0] =~= stem.push('/') + names[0]);
        }
    } else {
        lemma_remote_path_shape(base, init);
        lemma_slashed_splits(init);
        let before = remote_path(base, init);
        assert(before.last() == slashed(init).last());
        assert(remote_path(base, names) =~= stem.push('/') + slashed(names));
    }
}

proof fn lemma_start_slashes(s: Seq<char>)
    requires
        s.len() > 0,
        s[0] != '/',
    ensures
        without_start_slashes(s) == s,
        without_start_slashes(seq!['/'] + s) == s,
{
    assert((seq!['/'] + s).drop_first() =~= s);
}

/// A tree that was pushed is found again where it is pulled from: the path that a file was pushed
/// to leads back to the same names.
pub proof fn lemma_tree_comes_back(base: Seq<char>, names: Seq<Seq<char>>, windows: bool)
    requires
        names.len() > 0,
        forall|i: int| 0 <= i < names.len() ==> ordinary_locally(#[trigger] names[i], windows),
    ensures
        below(base, remote_path(base, names)) is Some,
        local_names(text::split(below(base, remote_path(base, names))->0, '/'), windows) == Some(
            names,
        ),
{
    assert forall|i: int| 0 <= i < names.len() implies ordinary(#[trigger] names[i]) by {
        assert(ordinary_locally(names[i], windows));
    }
    let stem = without_end_slashes(base);
    let path = remote_path(base, names);
    lemma_remote_path_shape(base, names);
    lemma_slashed_splits(names);
    lemma_local_names_keep(names, windows);
    lemma_start_slashes(slashed(names));
    assert(path =~= stem + (seq!['/'] + slashed(names)));
    if stem.len() == 0 {
        assert(path =~= seq!['/'] + slashed(names));
    } else {
        assert(path.take(stem.len() as int) =~= stem);
        assert(path.skip(stem.len() as int) =~= seq!['/'] + slashed(names));
    }
    assert(below(base, path) == Some(slashed(names)));
}

/// The paths that a search reports.
pub open spec fn reported(stdout: Seq<char>) -> Seq<Seq<char>> {
    text::nonempty(text::split(stdout, '\0'))
}

/// What a device reports of a search, if the search succeeded: the paths, each ended by a zero.
pub fn found_paths(root: &str, result: &ExecResult) -> (r: Result<Vec<String>, String>)
    ensures
        match r {
            Ok(paths) => result.code == Some(0i32) && shell::views(paths@) == reported(
                result.stdout@,
            ),
            Err(message) => result.code != Some(0i32) && message@ == "find "@ + root@ + ": "@
                + text::trim(result.stderr@),
        },
{
    match result.code {
        Some(0) => {},
        _ => return Err(complaint("find ", root, result.stderr.as_str())),
    }
    Ok(text::pieces(result.stdout.as_str(), '\0'))
}

fn complaint(what: &str, path: &str, stderr: &str) -> (r: String)
    ensures
        r@ == what@ + path@ + ": "@ + text::trim(stderr@),
{
    let chars = text::chars_of(stderr);
    let said = text::string_of(text::trimmed(chars.as_slice()).as_slice());
    text::cat4(what, path, ": ", said.as_str())
}

/// Whether a directory was made on the device.
pub fn check_made(path: &str, result: &ExecResult) -> (r: Result<(), String>)
    ensures
        r is Ok <==> result.code == Some(0i32),
        r matches Err(message) ==> message@ == "mkdir "@ + path@ + ": "@ + text::trim(
            result.stderr@,
        ),
{
    match result.code {
        Some(0) => Ok(()),
        _ => Err(complaint("mkdir ", path, result.stderr.as_str())),
    }
}

/// What an entry of a local directory is.
#[derive(Debug, Clone, Copy, PartialEq, Eq, Structural)]
pub enum EntryKind {
    Symlink,
    Directory,
    File,
    Other,
}

/// What is done about it.
#[derive(Debug, Clone, Copy, PartialEq, Eq, Structural)]
pub enum EntryAction {
    /// Make the directory on the device, then walk it.
    Walk,
    /// Send the file, once there is room for one more.
    Send,
    Nothing,
}

/// What is done about an entry of a tree that is pushed, if it can be pushed.
pub open spec fn entry_action(kind: EntryKind) -> Option<EntryAction> {
    match kind {
        EntryKind::Symlink => None,
        EntryKind::Directory => Some(EntryAction::Walk),
        EntryKind::File => Some(EntryAction::Send),
        EntryKind::Other => Some(EntryAction::Nothing),
    }
}

/// Whether what is pushed is a tree, if it can be pushed.
pub open spec fn is_tree(kind: EntryKind) -> Option<bool> {
    match kind {
        EntryKind::File => Some(false),
        EntryKind::Directory => Some(true),
        _ => None,
    }
}

/// A tree is pushed without following links.
pub fn push_entry(kind: EntryKind, shown: &str) -> (r: Result<EntryAction, String>)
    ensures
        match r {
            Ok(action) => entry_action(kind) == Some(action),
            Err(message) => entry_action(kind) is None && message@
                == "recursive push does not follow symlink "@ + shown@,
        },
{
    match kind {
        EntryKind::Symlink => Err(text::cat2("recursive push does not follow symlink ", shown)),
        EntryKind::Directory => Ok(EntryAction::Walk),
        EntryKind::File => Ok(EntryAction::Send),
        EntryKind::Other => Ok(EntryAction::Nothing),
    }
}

/// What is pushed: one file, or a tree.
pub fn push_source(kind: EntryKind, shown: &str) -> (r: Result<bool, String>)
    ensures
        match r {
            Ok(tree) => is_tree(kind) == Some(tree),
            Err(message) => is_tree(kind) is None && message@
                == "local path is not a regular file or directory: "@ + shown@,
        },
{
    match kind {
        EntryKind::File => Ok(false),
        EntryKind::Directory => Ok(true),
        _ => Err(text::cat2("local path is not a regular file or directory: ", shown)),
    }
}

/// What is said of one file that was moved.
pub fn one_file(verb: &str, bytes: u64) -> (r: String)
    ensures
        r@ == verb@ + " 1 file ("@ + text::decimal(bytes as nat) + " bytes)"@,
{
    text::cat4(verb, " 1 file (", text::decimal_string(bytes).as_str(), " bytes)")
}

/// What is said of a tree that was moved.
pub fn whole_tree(verb: &str, totals: Totals, directories: u64) -> (r: String)
    ensures
        r@ == verb@ + " "@ + text::decimal(totals.files as nat) + " files in "@ + text::decimal(
            directories as nat,
        ) + " directories ("@ + text::decimal(totals.bytes as nat) + " bytes)"@,
{
    let mut out = text::cat4(verb, " ", text::decimal_string(totals.files).as_str(), " files in ");
    out.append(text::decimal_string(directories).as_str());
    out.append(" directories (");
    out.append(text::decimal_string(totals.bytes).as_str());
    out.append(" bytes)");
    out
}

/// What is said of a push to one of several devices.
pub fn push_row(name: &str, short_id: &str, said: &str) -> (r: String)
    ensures
        r@ == "["@ + name@ + ":"@ + short_id@ + "] "@ + said@,
{
    let mut out = text::cat4("[", name, ":", short_id);
    out.append("] ");
    out.append(said);
    out
}

/// What a search prints: each path ended by a zero.
pub open spec fn search_output(paths: Seq<Seq<char>>) -> Seq<char>
    decreases paths.len(),
{
    if paths.len() == 0 {
        Seq::empty()
    } else {
        search_output(paths.drop_last()) + paths.last().push('\0')
    }
}

/// Every path that a search finds is taken as it is, in order, whatever characters stand in it
/// besides the zero that ends it: line breaks and blanks too.
pub proof fn lemma_search_is_read_back(paths: Seq<Seq<char>>)
    requires
        forall|i: int|
            0 <= i < paths.len() ==> (#[trigger] paths[i]).len() > 0 && !paths[i].contains('\0'),
    ensures
        reported(search_output(paths)) == paths,
    decreases paths.len(),
{
    lemma_search_splits(paths);
    let parts = paths.push(Seq::empty());
    assert(parts.drop_last() =~= paths);
    lemma_nonempty_keeps(paths);
}

proof fn lemma_nonempty_keeps(paths: Seq<Seq<char>>)
    requires
        forall|i: int| 0 <= i < paths.len() ==> (#[trigger] paths[i]).len() > 0,
    ensures
        text::nonempty(paths) == paths,
    decreases paths.len(),
{
    if paths.len() > 0 {
        let init = paths.drop_last();
        assert forall|i: int| 0 <= i < init.len() implies (#[trigger] init[i]).len() > 0 by {
            assert(paths[i].len() > 0);
        }
        assert(paths[paths.len() - 1].len() > 0);
        lemma_nonempty_keeps(init);
        assert(init.push(paths.last()) =~= paths);
    }
}

proof fn lemma_search_splits(paths: Seq<Seq<char>>)
    requires
        forall|i: int| 0 <= i < paths.len() ==> !(#[trigger] paths[i]).contains('\0'),
    ensures
        text::split(search_output(paths), '\0') == paths.push(Seq::empty()),
    decreases paths.len(),
{
    let all = search_output(paths);
    if paths.len() == 0 {
        assert(text::split(all, '\0') =~= paths.push(Seq::empty()));
    } else {
        let init = paths.drop_last();
        let last = paths.last();
        assert forall|i: int| 0 <= i < init.len() implies !(#[trigger] init[i]).contains('\0') by {
            assert(!paths[i].contains('\0'));
        }
        assert(!paths[paths.len() - 1].contains('\0'));
        lemma_search_splits(init);
        let body = search_output(init) + last;
        assert(all.drop_last() =~= body);
        if init.len() == 0 {
            lemma_single_split(last, '\0');
            assert(body =~= last);
            assert(seq![last] =~= paths);
        } else {
            let before = search_output(init).drop_last();
            assert(search_output(init) =~= before.push('\0'));
            lemma_split_push(before, '\0', last);
            lemma_split_push(before, '\0', Seq::empty());
            assert(before.push('\0') + Seq::empty() =~= search_output(init));
            assert(text::split(before, '\0') =~= init) by {
                assert(text::split(before, '\0').push(Seq::empty()).drop_last() =~= text::split(
                    before,
                    '\0',
                ));
                assert(init.push(Seq::empty()).drop_last() =~= init);
            }
            assert(init.push(last) =~= paths);
        }
        assert(text::split(all, '\0') =~= paths.push(Seq::empty()));
    }
}

/// What can be pushed alone is pushed in the same way inside a tree, and nothing else is moved: a
/// link stops a tree, and what is neither file nor directory is passed over there.
pub proof fn lemma_trees_are_pushed_like_files(kind: EntryKind)
    ensures
        is_tree(kind) == Some(false) <==> entry_action(kind) == Some(EntryAction::Send),
        is_tree(kind) == Some(true) <==> entry_action(kind) == Some(EntryAction::Walk),
        entry_action(kind) is None <==> kind == EntryKind::Symlink,
        is_tree(EntryKind::File) == Some(false),
        is_tree(EntryKind::Directory) == Some(true),
{
}

/// As many files are moved at a time as were asked for, but at least one and at most sixteen.
pub proof fn lemma_jobs_are_bounded(jobs: usize, more: usize)
    ensures
        1 <= job_limit(jobs) <= 16,
        1 <= jobs <= 16 ==> job_limit(jobs) == jobs,
        jobs <= more ==> job_limit(jobs) <= job_limit(more),
{
}

/// The names of a local path are kept in order, the directory itself adds none, and a path that
/// holds a root, a drive or the directory above has no names.
pub proof fn lemma_only_names_are_kept(parts: Seq<PathPart>, name: String)
    ensures
        names_of(parts) is None <==> exists|i: int|
            0 <= i < parts.len() && (#[trigger] parts[i]) is Other,
        names_of(parts) matches Some(names) ==> names_of(parts.push(PathPart::Name(name))) == Some(
            names.push(name@),
        ),
        names_of(parts.push(PathPart::Current)) == names_of(parts),
        names_of(parts.push(PathPart::Other)) is None,
    decreases parts.len(),
{
    assert(parts.push(PathPart::Name(name)).drop_last() =~= parts);
    assert(parts.push(PathPart::Current).drop_last() =~= parts);
    assert(parts.push(PathPart::Other).drop_last() =~= parts);
    if parts.len() > 0 {
        let init = parts.drop_last();
        lemma_only_names_are_kept(init, name);
        if names_of(init) is None {
            let i = choose|i: int| 0 <= i < init.len() && (#[trigger] init[i]) is Other;
            assert(parts[i] is Other);
        }
        if parts.last() is Other {
            assert(parts[parts.len() - 1] is Other);
        }
        if exists|i: int| 0 <= i < parts.len() && (#[trigger] parts[i]) is Other {
            let i = choose|i: int| 0 <= i < parts.len() && (#[trigger] parts[i]) is Other;
            if i < init.len() {
                assert(init[i] is Other);
            }
        }
    }
}

/// A remote path that goes up anywhere is refused, wherever it would lead; one that does not is
/// taken where names are separated by slashes alone. Empty parts and the directory itself add
/// nothing.
pub proof fn lemma_nothing_goes_up(parts: Seq<Seq<char>>, windows: bool, i: int)
    ensures
        0 <= i < parts.len() && parts[i] == ".."@ ==> local_names(parts, windows) is None,
        (forall|k: int| 0 <= k < parts.len() ==> #[trigger] parts[k] != ".."@) ==> local_names(
            parts,
            false,
        ) is Some,
        local_names(parts.push(Seq::empty()), windows) == local_names(parts, windows),
        local_names(parts.push("."@), windows) == local_names(parts, windows),
    decreases parts.len(),
{
    reveal_strlit("..");
    reveal_strlit(".");
    assert(parts.push(Seq::empty()).drop_last() =~= parts);
    assert(parts.push("."@).drop_last() =~= parts);
    if parts.len() > 0 {
        let init = parts.drop_last();
        lemma_nothing_goes_up(init, windows, i);
        if forall|k: int| 0 <= k < parts.len() ==> #[trigger] parts[k] != ".."@ {
            assert(parts[parts.len() - 1] != ".."@);
            assert forall|k: int| 0 <= k < init.len() implies #[trigger] init[k] != ".."@ by {
                assert(parts[k] != ".."@);
            }
        }
        if 0 <= i < init.len() {
            assert(init[i] == parts[i]);
        } else if i == parts.len() - 1 && parts[i] == ".."@ {
            lemma_up_is_no_name(windows);
        }
    }
}

proof fn lemma_up_is_no_name(windows: bool)
    ensures
        plain_name(".."@, windows) is None,
{
    reveal_strlit("..");
    let up = ".."@;
    assert(!up.contains('\\'));
    lemma_single_split(up, '\\');
    assert(text::split(up, '\\')[0] == up);
}

/// Slashes at the end of a base make no difference to what goes below it, and all of it goes
/// below that base.
pub proof fn lemma_base_leads_the_path(base: Seq<char>, names: Seq<Seq<char>>)
    requires
        names.len() > 0,
        forall|i: int| 0 <= i < names.len() ==> ordinary(#[trigger] names[i]),
    ensures
        remote_path(base.push('/'), names) == remote_path(base, names),
        text::starts_with(remote_path(base, names), without_end_slashes(base)),
        remote_path("/"@, names)[0] == '/',
{
    reveal_strlit("/");
    lemma_remote_path_shape(base, names);
    lemma_remote_path_shape(base.push('/'), names);
    lemma_remote_path_shape("/"@, names);
    assert(base.push('/').drop_last() =~= base);
    assert(without_end_slashes(base.push('/')) == without_end_slashes(base));
    let stem = without_end_slashes(base);
    assert(remote_path(base, names).take(stem.len() as int) =~= stem);
    assert("/"@.drop_last() =~= Seq::<char>::empty());
    assert(without_end_slashes("/"@) =~= Seq::<char>::empty()) by {
        assert(without_end_slashes("/"@.drop_last()) =~= Seq::<char>::empty());
    }
}

} // verus!
