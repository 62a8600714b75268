//! A virtual file system: backends, an in-memory backend with directories,
//! and a mount table that routes each path to the backend with the longest
//! matching mount point.

use vstd::prelude::*;
use crate::text::{
    begins_with, chars_of, insert_rising, names_contain, names_of, rising, starts_with,
};
use vstd::string::{StrSliceExecFns, StringExecFns};

verus! {

/// The content of a file.
pub type Bytes = Vec<u8>;

/// The number of characters of `s` before its first slash.
pub open spec fn head_len(s: Seq<char>) -> nat
    decreases s.len(),
{
    if s.len() == 0 || s[0] == '/' {
        0
    } else {
        1 + head_len(s.drop_first())
    }
}

/// The parts into which the slashes divide `s`; a path without a slash is
/// one part, and two slashes in a row have an empty part between them.
pub open spec fn split(s: Seq<char>) -> Seq<Seq<char>>
    decreases s.len(),
{
    let n = head_len(s);
    if n >= s.len() {
        seq![s]
    } else {
        seq![s.take(n as int)] + split(s.skip(n as int + 1))
    }
}

/// Whether a part counts: empty parts and the parts `.` and `..` are dropped.
pub open spec fn is_kept(part: Seq<char>) -> bool {
    part.len() > 0 && part != seq!['.'] && part != seq!['.', '.']
}

/// The parts of `parts` that count, in their order.
pub open spec fn kept_parts(parts: Seq<Seq<char>>) -> Seq<Seq<char>>
    decreases parts.len(),
{
    if parts.len() == 0 {
        parts
    } else if is_kept(parts.last()) {
        kept_parts(parts.drop_last()).push(parts.last())
    } else {
        kept_parts(parts.drop_last())
    }
}

/// Each part with a slash in front, one after the other.
pub open spec fn spread(parts: Seq<Seq<char>>) -> Seq<char>
    decreases parts.len(),
{
    if parts.len() == 0 {
        Seq::empty()
    } else {
        spread(parts.drop_last()) + seq!['/'] + parts.last()
    }
}

/// The normal form of a path: the root alone, or the parts that count, each
/// with a slash in front.
pub open spec fn normalized(path: Seq<char>) -> Seq<char> {
    let parts = kept_parts(split(path));
    if parts.len() == 0 {
        seq!['/']
    } else {
        spread(parts)
    }
}

/// If no slash stands in `s` from `start` up to `end`, and `end` is the end
/// of `s` or a slash stands there, the part that begins at `start` ends at
/// `end`.
pub proof fn lemma_head_len(s: Seq<char>, start: int, end: int)
    requires
        0 <= start <= end <= s.len(),
        forall|k: int| start <= k < end ==> s[k] != '/',
        end == s.len() || s[end] == '/',
    ensures
        head_len(s.skip(start)) == end - start,
    decreases end - start,
{
    let rest = s.skip(start);
    if start < end {
        assert(rest.drop_first() =~= s.skip(start + 1));
        lemma_head_len(s, start + 1, end);
    }
}

/// Appends the part of `path` from `start` up to `end` to `out`, with a slash
/// in front, if the part counts.
fn push_part(out: &mut String, path: &str, chars: &Vec<char>, start: usize, end: usize)
    requires
        chars@ == path@,
        start <= end <= chars@.len(),
    ensures
        final(out)@ == if is_kept(path@.subrange(start as int, end as int)) {
            old(out)@ + seq!['/'] + path@.subrange(start as int, end as int)
        } else {
            old(out)@
        },
{
    let ghost part = path@.subrange(start as int, end as int);
    let len = end - start;
    let dot = len == 1 && chars[start] == '.';
    let dots = len == 2 && chars[start] == '.' && chars[start + 1] == '.';
    proof {
        if dot {
            assert(part =~= seq!['.']);
        }
        if dots {
            assert(part =~= seq!['.', '.']);
        }
        let one = seq!['.'];
        let two = seq!['.', '.'];
        assert(one[0] == '.' && two[0] == '.' && two[1] == '.');
    }
    if len > 0 && !dot && !dots {
        out.append("/");
        out.append(path.substring_char(start, end));
        proof {
            reveal_strlit("/");
        }
    }
}

/// What one more part adds to the spread of the parts that count.
pub proof fn lemma_spread_push(parts: Seq<Seq<char>>, part: Seq<char>)
    ensures
        spread(kept_parts(parts.push(part))) == if is_kept(part) {
            spread(kept_parts(parts)) + seq!['/'] + part
        } else {
            spread(kept_parts(parts))
        },
{
    let longer = parts.push(part);
    assert(longer.drop_last() =~= parts);
    if is_kept(part) {
        let kept = kept_parts(parts).push(part);
        assert(kept.drop_last() =~= kept_parts(parts));
    }
}

/// The normal form of `path`: always absolute, without empty parts and
/// without `.` and `..` parts, and without a slash at the end unless it is
/// the root.
pub fn norm(path: &str) -> (out: String)
    ensures
        out@ == normalized(path@),
{
    let chars = chars_of(path);
    let n = chars.len();
    let mut out = String::new();
    let mut start: usize = 0;
    let mut i: usize = 0;
    let ghost mut parts: Seq<Seq<char>> = Seq::empty();
    proof {
        assert(path@.skip(0) =~= path@);
    }
    while i < n
        invariant
            n == chars@.len(),
            chars@ == path@,
            start <= i <= n,
            parts + split(path@.skip(start as int)) == split(path@),
            forall|k: int| start <= k < i ==> path@[k] != '/',
            out@ == spread(kept_parts(parts)),
        decreases n - i,
    {
        if chars[i] == '/' {
            let ghost part = path@.subrange(start as int, i as int);
            proof {
                lemma_head_len(path@, start as int, i as int);
                let rest = path@.skip(start as int);
                assert(rest.take(i - start) =~= part);
                assert(rest.skip(i - start + 1) =~= path@.skip(i + 1));
                lemma_spread_push(parts, part);
            }
            push_part(&mut out, path, &chars, start, i);
            proof {
                parts = parts.push(part);
            }
            start = i + 1;
        }
        i += 1;
    }
    let ghost part = path@.subrange(start as int, n as int);
    proof {
        lemma_head_len(path@, start as int, n as int);
        assert(parts + seq![part] =~= parts.push(part));
        lemma_spread_push(parts, part);
    }
    push_part(&mut out, path, &chars, start, n);
    if out.as_str().unicode_len() == 0 {
        proof {
            reveal_strlit("/");
        }
        return "/".to_owned();
    }
    out
}

/// What an in-memory file system holds: the content of each file, by its
/// normalized path, and the normalized paths of the directories.
pub ghost struct FsModel {
    pub files: Map<Seq<char>, Seq<u8>>,
    pub dirs: Set<Seq<char>>,
}

/// The content of an optional file.
pub open spec fn bytes_of(file: Option<Bytes>) -> Option<Seq<u8>> {
    match file {
        Some(b) => Some(b@),
        None => None,
    }
}

/// A place where files are kept. Each operation comes with a rule that says
/// what it may do to what the backend holds; a backend that says nothing may
/// do anything. The rules of a backend are fixed: they speak of what the
/// backend holds at the time, and no operation changes them.
pub trait Backend: Send + Sync {
    /// What the backend holds, for backends that keep a model of it.
    open spec fn model(&self) -> FsModel {
        FsModel { files: Map::empty(), dirs: Set::empty() }
    }

    /// Whether reading `path` may give `out` while the backend holds `held`.
    open spec fn read_spec(&self, held: FsModel, path: Seq<char>, out: Option<Seq<u8>>) -> bool {
        true
    }

    /// Whether writing `data` to `path` while the backend holds `held` may
    /// leave it holding `after` and report `ok`.
    open spec fn write_spec(
        &self,
        held: FsModel,
        path: Seq<char>,
        data: Seq<u8>,
        after: FsModel,
        ok: bool,
    ) -> bool {
        true
    }

    /// Whether asking for `path` may be answered with `found` while the
    /// backend holds `held`.
    open spec fn exists_spec(&self, held: FsModel, path: Seq<char>, found: bool) -> bool {
        true
    }

    /// Whether listing `path` may give `names` while the backend holds
    /// `held`.
    open spec fn list_spec(&self, held: FsModel, path: Seq<char>, names: Seq<Seq<char>>) -> bool {
        true
    }

    /// Whether making the directory `path` while the backend holds `held`
    /// may leave it holding `after` and report `ok`.
    open spec fn mkdir_spec(&self, held: FsModel, path: Seq<char>, after: FsModel, ok: bool) -> bool {
        true
    }

    /// The content of the file at `path`, if there is one.
    fn read(&self, path: &str) -> (out: Option<Bytes>)
        ensures
            self.read_spec(self.model(), path@, bytes_of(out)),
    ;

    /// Writes `data` to the file at `path`; reports whether it did.
    fn write(&mut self, path: &str, data: &[u8]) -> (ok: bool)
        ensures
            old(self).write_spec(old(self).model(), path@, data@, final(self).model(), ok),
            forall|held: FsModel, p: Seq<char>, out: Option<Seq<u8>>| #[trigger]
                final(self).read_spec(held, p, out) == old(self).read_spec(held, p, out),
            forall|held: FsModel, p: Seq<char>, d: Seq<u8>, next: FsModel, done: bool| #[trigger]
                final(self).write_spec(held, p, d, next, done) == old(self).write_spec(
                    held,
                    p,
                    d,
                    next,
                    done,
                ),
            forall|held: FsModel, p: Seq<char>, found: bool| #[trigger]
                final(self).exists_spec(held, p, found) == old(self).exists_spec(held, p, found),
            forall|held: FsModel, p: Seq<char>, names: Seq<Seq<char>>| #[trigger]
                final(self).list_spec(held, p, names) == old(self).list_spec(held, p, names),
            forall|held: FsModel, p: Seq<char>, next: FsModel, done: bool| #[trigger]
                final(self).mkdir_spec(held, p, next, done) == old(self).mkdir_spec(
                    held,
                    p,
                    next,
                    done,
                ),
    ;

    /// Whether something exists at `path`.
    fn exists_at(&self, path: &str) -> (found: bool)
        ensures
            self.exists_spec(self.model(), path@, found),
    ;

    /// The names of what lies directly or further below `path`, one level
    /// down.
    fn list(&self, path: &str) -> (names: Vec<String>)
        ensures
            self.list_spec(self.model(), path@, names_of(names@)),
    ;

    /// Makes the directory `path`; reports whether it did.
    fn mkdir(&mut self, path: &str) -> (ok: bool)
        ensures
            old(self).mkdir_spec(old(self).model(), path@, final(self).model(), ok),
            forall|held: FsModel, p: Seq<char>, out: Option<Seq<u8>>| #[trigger]
                final(self).read_spec(held, p, out) == old(self).read_spec(held, p, out),
            forall|held: FsModel, p: Seq<char>, d: Seq<u8>, next: FsModel, done: bool| #[trigger]
                final(self).write_spec(held, p, d, next, done) == old(self).write_spec(
                    held,
                    p,
                    d,
                    next,
                    done,
                ),
            forall|held: FsModel, p: Seq<char>, found: bool| #[trigger]
                final(self).exists_spec(held, p, found) == old(self).exists_spec(held, p, found),
            forall|held: FsModel, p: Seq<char>, names: Seq<Seq<char>>| #[trigger]
                final(self).list_spec(held, p, names) == old(self).list_spec(held, p, names),
            forall|held: FsModel, p: Seq<char>, next: FsModel, done: bool| #[trigger]
                final(self).mkdir_spec(held, p, next, done) == old(self).mkdir_spec(
                    held,
                    p,
                    next,
                    done,
                ),
    ;
}

/// The content filed under `path` in a list of files: that of the first
/// entry with this path.
pub open spec fn lookup(files: Seq<(String, Bytes)>, path: Seq<char>) -> Option<Seq<u8>>
    decreases files.len(),
{
    if files.len() == 0 {
        None
    } else if files[0].0@ == path {
        Some(files[0].1@)
    } else {
        lookup(files.drop_first(), path)
    }
}

/// The position of the last slash in `path`; `-1` if there is none.
pub open spec fn last_slash(path: Seq<char>) -> int
    decreases path.len(),
{
    if path.len() == 0 {
        -1
    } else if path.last() == '/' {
        path.len() - 1
    } else {
        last_slash(path.drop_last())
    }
}

/// The directory in which the normalized path `path` lies: the root for a
/// path right below the root, otherwise the path up to its last slash.
pub open spec fn parent_of(path: Seq<char>) -> Seq<char> {
    let at = last_slash(path);
    if at <= 0 {
        seq!['/']
    } else {
        path.take(at)
    }
}

/// The prefix that the paths below the normalized directory `base` share.
pub open spec fn below(base: Seq<char>) -> Seq<char> {
    if base == seq!['/'] {
        base
    } else {
        base + seq!['/']
    }
}

/// The first name of `rest`: `rest` up to its first slash.
pub open spec fn first_name(rest: Seq<char>) -> Seq<char> {
    rest.take(head_len(rest) as int)
}

/// Whether `name` is the name under which the entry `path` appears in a
/// listing of the normalized directory `base`. Files may appear with an empty
/// name; directories do not.
pub open spec fn listed_as(base: Seq<char>, path: Seq<char>, name: Seq<char>, dir: bool) -> bool {
    let prefix = below(base);
    &&& begins_with(path, prefix)
    &&& name == first_name(path.skip(prefix.len() as int))
    &&& dir ==> path.len() > prefix.len()
}

/// The position of the first entry with the path `path` in a list of files.
pub fn find_file(files: &Vec<(String, Bytes)>, path: &String) -> (found: Option<usize>)
    ensures
        match found {
            Some(i) => i < files@.len() && lookup_index(files@, path@) == Some(i as int)
                && files@[i as int].0@ == path@ && lookup(files@, path@) == Some(
                files@[i as int].1@,
            ),
            None => lookup_index(files@, path@) is None && lookup(files@, path@) is None,
        },
{
    proof {
        lemma_lookup_index(files@, path@);
    }
    let mut i: usize = 0;
    while i < files.len()
        invariant
            i <= files@.len(),
            forall|k: int| 0 <= k < i ==> files@[k].0@ != path@,
        decreases files@.len() - i,
    {
        if files[i].0 == *path {
            proof {
                lemma_lookup_index(files@, path@);
                match lookup_index(files@, path@) {
                    Some(j) => {
                    },
                    None => {
                    },
                }
            }
            return Some(i);
        }
        i += 1;
    }
    None
}

/// The position of the last slash among the characters of a path.
pub fn find_last_slash(chars: &Vec<char>) -> (at: Option<usize>)
    ensures
        match at {
            Some(i) => i == last_slash(chars@) && i < chars@.len(),
            None => last_slash(chars@) == -1,
        },
{
    let mut i: usize = chars.len();
    proof {
        assert(chars@.take(chars@.len() as int) =~= chars@);
    }
    while i > 0
        invariant
            i <= chars@.len(),
            last_slash(chars@) == last_slash(chars@.take(i as int)),
        decreases i,
    {
        let ghost front = chars@.take(i as int);
        proof {
            assert(front.drop_last() =~= chars@.take(i - 1));
        }
        if chars[i - 1] == '/' {
            return Some(i - 1);
        }
        i -= 1;
    }
    None
}

/// A backend that keeps files and directories in memory.
pub struct MemBackend {
    files: Vec<(String, Bytes)>,
    dirs: Vec<String>,
}

/// The files and directories that the lists of a memory backend stand for.
pub open spec fn model_of(files: Seq<(String, Bytes)>, dirs: Seq<String>) -> FsModel {
    FsModel {
        files: Map::new(
            |p: Seq<char>| lookup(files, p) is Some,
            |p: Seq<char>| lookup(files, p)->0,
        ),
        dirs: names_of(dirs).to_set(),
    }
}

/// A lookup finds the content at the first position with the path.
pub proof fn lemma_first_match(files: Seq<(String, Bytes)>, path: Seq<char>, i: int)
    requires
        0 <= i < files.len(),
        files[i].0@ == path,
        forall|k: int| 0 <= k < i ==> files[k].0@ != path,
    ensures
        lookup(files, path) == Some(files[i].1@),
    decreases i,
{
    if i > 0 {
        let rest = files.drop_first();
        lemma_first_match(rest, path, i - 1);
    }
}

/// A lookup finds nothing if no entry has the path.
pub proof fn lemma_no_match(files: Seq<(String, Bytes)>, path: Seq<char>)
    requires
        forall|k: int| 0 <= k < files.len() ==> files[k].0@ != path,
    ensures
        lookup(files, path) is None,
    decreases files.len(),
{
    if files.len() > 0 {
        let rest = files.drop_first();
        lemma_no_match(rest, path);
    }
}

/// What a lookup finds after the file at `path` was set to `data`, either in
/// place of the first entry with that path or, if there was none, at the end.
pub proof fn lemma_lookup_after_write(
    before: Seq<(String, Bytes)>,
    after: Seq<(String, Bytes)>,
    path: Seq<char>,
    data: Seq<u8>,
    other: Seq<char>,
)
    requires
        match lookup_index(before, path) {
            Some(i) => 0 <= i < before.len() && after.len() == before.len() && after[i].0@ == path
                && after[i].1@ == data && forall|k: int|
                0 <= k < before.len() && k != i ==> after[k] == before[k],
            None => after.len() == before.len() + 1 && after[before.len() as int].0@ == path
                && after[before.len() as int].1@ == data && forall|k: int|
                0 <= k < before.len() ==> after[k] == before[k],
        },
    ensures
        lookup(after, other) == if other == path {
            Some(data)
        } else {
            lookup(before, other)
        },
{
    lemma_lookup_index(before, path);
    lemma_lookup_index(before, other);
    if other == path {
        match lookup_index(before, path) {
            Some(i) => {
                lemma_first_match(after, path, i);
            },
            None => {
                lemma_first_match(after, path, before.len() as int);
            },
        }
    } else {
        match lookup_index(before, other) {
            Some(j) => {
                lemma_first_match(after, other, j);
            },
            None => {
                lemma_no_match(after, other);
            },
        }
    }
}

/// The position of the first entry with the path `path`, if there is one.
pub open spec fn lookup_index(files: Seq<(String, Bytes)>, path: Seq<char>) -> Option<int>
    decreases files.len(),
{
    if files.len() == 0 {
        None
    } else if files[0].0@ == path {
        Some(0)
    } else {
        match lookup_index(files.drop_first(), path) {
            Some(i) => Some(i + 1),
            None => None,
        }
    }
}

/// The first position with a path is a position with that path before which
/// no entry has it, and a lookup finds its content.
pub proof fn lemma_lookup_index(files: Seq<(String, Bytes)>, path: Seq<char>)
    ensures
        match lookup_index(files, path) {
            Some(i) => 0 <= i < files.len() && files[i].0@ == path && lookup(files, path) == Some(
                files[i].1@,
            ) && forall|k: int| 0 <= k < i ==> files[k].0@ != path,
            None => lookup(files, path) is None && forall|k: int|
                0 <= k < files.len() ==> files[k].0@ != path,
        },
    decreases files.len(),
{
    if files.len() > 0 && files[0].0@ != path {
        lemma_lookup_index(files.drop_first(), path);
        let rest = files.drop_first();
        match lookup_index(rest, path) {
            Some(i) => {
                assert forall|k: int| 0 <= k < i + 1 implies files[k].0@ != path by {
                    if k > 0 {
                        assert(rest[k - 1] == files[k]);
                    }
                }
            },
            None => {
                assert forall|k: int| 0 <= k < files.len() implies files[k].0@ != path by {
                    if k > 0 {
                        assert(rest[k - 1] == files[k]);
                    }
                }
            },
        }
    }
}

impl MemBackend {
    /// A backend without files, in which only the root directory exists.
    pub fn new() -> (backend: Self)
        ensures
            backend.model() == (FsModel { files: Map::empty(), dirs: set![seq!['/']] }),
    {
        let mut dirs: Vec<String> = Vec::new();
        dirs.push("/".to_owned());
        let backend = MemBackend { files: Vec::new(), dirs };
        proof {
            reveal_strlit("/");
            assert(names_of(backend.dirs@).to_set() =~= set![seq!['/']]) by {
                assert(names_of(backend.dirs@)[0] == seq!['/']);
            }
            assert(backend.model().files =~= Map::<Seq<char>, Seq<u8>>::empty());
        }
        backend
    }
}

impl Default for MemBackend {
    /// A backend without files and without directories, not even the root.
    fn default() -> (backend: Self)
        ensures
            backend.model() == (FsModel { files: Map::empty(), dirs: Set::empty() }),
    {
        let backend = MemBackend { files: Vec::new(), dirs: Vec::new() };
        proof {
            assert(names_of(backend.dirs@).to_set() =~= Set::<Seq<char>>::empty());
            assert(backend.model().files =~= Map::<Seq<char>, Seq<u8>>::empty());
        }
        backend
    }
}

impl Backend for MemBackend {
    closed spec fn model(&self) -> FsModel {
        model_of(self.files@, self.dirs@)
    }

    open spec fn read_spec(&self, held: FsModel, path: Seq<char>, out: Option<Seq<u8>>) -> bool {
        out == held.files.get(normalized(path))
    }

    open spec fn write_spec(
        &self,
        held: FsModel,
        path: Seq<char>,
        data: Seq<u8>,
        after: FsModel,
        ok: bool,
    ) -> bool {
        let p = normalized(path);
        &&& ok == held.dirs.contains(parent_of(p))
        &&& after == if ok {
            FsModel { files: held.files.insert(p, data), ..held }
        } else {
            held
        }
    }

    open spec fn exists_spec(&self, held: FsModel, path: Seq<char>, found: bool) -> bool {
        let p = normalized(path);
        found == (held.files.contains_key(p) || held.dirs.contains(p))
    }

    open spec fn list_spec(&self, held: FsModel, path: Seq<char>, names: Seq<Seq<char>>) -> bool {
        let base = normalized(path);
        &&& rising(names)
        &&& forall|name: Seq<char>|
            names.contains(name) <==> (exists|p: Seq<char>|
                held.files.contains_key(p) && #[trigger] listed_as(base, p, name, false)) || (
            exists|d: Seq<char>| held.dirs.contains(d) && #[trigger] listed_as(base, d, name, true))
    }

    open spec fn mkdir_spec(&self, held: FsModel, path: Seq<char>, after: FsModel, ok: bool) -> bool {
        let p = normalized(path);
        &&& ok == !held.dirs.contains(p)
        &&& after == (FsModel { dirs: held.dirs.insert(p), ..held })
    }

    fn read(&self, path: &str) -> (out: Option<Bytes>) {
        let p = norm(path);
        match find_file(&self.files, &p) {
            Some(i) => Some(vstd::slice::slice_to_vec(self.files[i].1.as_slice())),
            None => None,
        }
    }

    fn write(&mut self, path: &str, data: &[u8]) -> (ok: bool) {
        let p = norm(path);
        let chars = chars_of(p.as_str());
        let ghost before = self.files@;
        proof {
            reveal_strlit("/");
            assert("/"@ =~= seq!['/']);
        }
        let parent = match find_last_slash(&chars) {
            Some(at) => if at == 0 {
                "/".to_owned()
            } else {
                p.as_str().substring_char(0, at).to_owned()
            },
            None => "/".to_owned(),
        };
        if !names_contain(&self.dirs, &parent) {
            return false;
        }
        let content = vstd::slice::slice_to_vec(data);
        match find_file(&self.files, &p) {
            Some(i) => {
                self.files.set(i, (p, content));
            },
            None => {
                self.files.push((p, content));
            },
        }
        proof {
            let after = self.files@;
            assert forall|other: Seq<char>| lookup(after, other) == if other == p@ {
                Some(data@)
            } else {
                lookup(before, other)
            } by {
                lemma_lookup_after_write(before, after, p@, data@, other);
            }
            assert(self.model().files =~= old(self).model().files.insert(p@, data@));
        }
        true
    }

    fn exists_at(&self, path: &str) -> (found: bool) {
        let p = norm(path);
        find_file(&self.files, &p).is_some() || names_contain(&self.dirs, &p)
    }

    fn list(&self, path: &str) -> (names: Vec<String>) {
        let base = norm(path);
        let mut prefix = base.clone();
        proof {
            reveal_strlit("/");
            assert("/"@ =~= seq!['/']);
        }
        if !(base == "/".to_owned()) {
            prefix.append("/");
        }
        let prefix_chars = chars_of(prefix.as_str());
        let mut names: Vec<String> = Vec::new();
        let ghost files = self.model().files;
        let ghost dirs = self.model().dirs;
        let mut i: usize = 0;
        while i < self.files.len()
            invariant
                i <= self.files@.len(),
                prefix_chars@ == below(base@),
                rising(names_of(names@)),
                forall|name: Seq<char>|
                    names_of(names@).contains(name) <==> exists|k: int|
                        0 <= k < i && #[trigger] listed_as(
                            base@,
                            self.files@[k].0@,
                            name,
                            false,
                        ),
            decreases self.files@.len() - i,
        {
            let key = &self.files[i].0;
            match child_name(key.as_str(), &prefix_chars, false) {
                Some(name) => {
                    let ghost text = name@;
                    insert_rising(&mut names, name);
                    proof {
                        assert forall|t: Seq<char>|
                            names_of(names@).contains(t) <==> exists|k: int|
                                0 <= k < i + 1 && #[trigger] listed_as(
                                    base@,
                                    self.files@[k].0@,
                                    t,
                                    false,
                                ) by {
                            if names_of(names@).contains(t) {
                                if t == text {
                                    assert(listed_as(base@, self.files@[i as int].0@, t, false));
                                }
                            }
                        }
                    }
                },
                None => {},
            }
            i += 1;
        }
        let mut j: usize = 0;
        while j < self.dirs.len()
            invariant
                j <= self.dirs@.len(),
                i == self.files@.len(),
                prefix_chars@ == below(base@),
                rising(names_of(names@)),
                forall|name: Seq<char>|
                    names_of(names@).contains(name) <==> (exists|k: int|
                        0 <= k < i && #[trigger] listed_as(
                            base@,
                            self.files@[k].0@,
                            name,
                            false,
                        )) || (exists|k: int|
                        0 <= k < j && #[trigger] listed_as(base@, self.dirs@[k]@, name, true)),
            decreases self.dirs@.len() - j,
        {
            let key = &self.dirs[j];
            match child_name(key.as_str(), &prefix_chars, true) {
                Some(name) => {
                    let ghost text = name@;
                    insert_rising(&mut names, name);
                    proof {
                        assert forall|t: Seq<char>|
                            names_of(names@).contains(t) <==> (exists|k: int|
                                0 <= k < i && #[trigger] listed_as(
                                    base@,
                                    self.files@[k].0@,
                                    t,
                                    false,
                                )) || (exists|k: int|
                                0 <= k < j + 1 && #[trigger] listed_as(
                                    base@,
                                    self.dirs@[k]@,
                                    t,
                                    true,
                                )) by {
                            if names_of(names@).contains(t) {
                                if t == text {
                                    assert(listed_as(base@, self.dirs@[j as int]@, t, true));
                                }
                            }
                        }
                    }
                },
                None => {},
            }
            j += 1;
        }
        proof {
            assert forall|name: Seq<char>|
                names_of(names@).contains(name) <==> (exists|p: Seq<char>|
                    files.contains_key(p) && #[trigger] listed_as(base@, p, name, false))
                    || (exists|d: Seq<char>|
                    dirs.contains(d) && #[trigger] listed_as(base@, d, name, true)) by {
                if exists|k: int|
                    0 <= k < i && #[trigger] listed_as(base@, self.files@[k].0@, name, false) {
                    let k = choose|k: int|
                        0 <= k < i && #[trigger] listed_as(
                            base@,
                            self.files@[k].0@,
                            name,
                            false,
                        );
                    lemma_lookup_index(self.files@, self.files@[k].0@);
                }
                if exists|k: int|
                    0 <= k < j && #[trigger] listed_as(base@, self.dirs@[k]@, name, true) {
                    let k = choose|k: int|
                        0 <= k < j && #[trigger] listed_as(base@, self.dirs@[k]@, name, true);
                    assert(names_of(self.dirs@)[k] == self.dirs@[k]@);
                }
                if exists|p: Seq<char>|
                    files.contains_key(p) && #[trigger] listed_as(base@, p, name, false) {
                    let p = choose|p: Seq<char>|
                        files.contains_key(p) && #[trigger] listed_as(base@, p, name, false);
                    lemma_lookup_index(self.files@, p);
                }
            }
        }
        names
    }

    fn mkdir(&mut self, path: &str) -> (ok: bool) {
        let p = norm(path);
        let ghost text = p@;
        let ghost before = names_of(self.dirs@);
        if names_contain(&self.dirs, &p) {
            proof {
                assert(before.to_set().insert(text) =~= before.to_set());
            }
            return false;
        }
        self.dirs.push(p);
        proof {
            let after = names_of(self.dirs@);
            assert(after =~= before.push(text));
            assert(after.to_set() =~= before.to_set().insert(text)) by {
                assert forall|t: Seq<char>| after.contains(t) <==> before.contains(t) || t
                    == text by {
                    if before.contains(t) {
                        let k = choose|k: int| 0 <= k < before.len() && before[k] == t;
                        assert(after[k] == t);
                    }
                    if t == text {
                        assert(after[after.len() - 1] == t);
                    }
                }
            }
        }
        true
    }
}

/// The name under which the entry `key` appears in a listing with the
/// prefix `prefix`, if it appears there.
pub fn child_name(key: &str, prefix: &Vec<char>, dir: bool) -> (name: Option<String>)
    ensures
        match name {
            Some(n) => begins_with(key@, prefix@) && n@ == first_name(
                key@.skip(prefix@.len() as int),
            ) && (dir ==> key@.len() > prefix@.len()),
            None => !begins_with(key@, prefix@) || (dir && key@.len() <= prefix@.len()),
        },
{
    let chars = chars_of(key);
    if !starts_with(&chars, prefix) {
        return None;
    }
    let from = prefix.len();
    if dir && chars.len() == from {
        return None;
    }
    let mut end: usize = from;
    while end < chars.len() && chars[end] != '/'
        invariant
            from <= end <= chars@.len(),
            forall|k: int| from <= k < end ==> chars@[k] != '/',
        decreases chars@.len() - end,
    {
        end += 1;
    }
    proof {
        lemma_head_len(chars@, from as int, end as int);
    }
    Some(key.substring_char(from, end).to_owned())
}

/// Something that is mounted, with the normalized path at which it is.
pub struct MountOf<B> {
    pub at: String,
    pub backend: B,
}

/// One backend with the normalized path at which it is mounted.
pub type Mount = MountOf<Box<dyn Backend>>;

/// Whether the mount `after` is the mount `before` after some operations:
/// at the same mount point, with a backend that goes by the same rules.
pub open spec fn same_rules(before: Mount, after: Mount) -> bool {
    &&& after.at == before.at
    &&& forall|held: FsModel, path: Seq<char>, out: Option<Seq<u8>>| #[trigger]
        after.backend.read_spec(held, path, out) == before.backend.read_spec(held, path, out)
    &&& forall|held: FsModel, path: Seq<char>, data: Seq<u8>, next: FsModel, ok: bool| #[trigger]
        after.backend.write_spec(held, path, data, next, ok) == before.backend.write_spec(
            held,
            path,
            data,
            next,
            ok,
        )
    &&& forall|held: FsModel, path: Seq<char>, found: bool| #[trigger]
        after.backend.exists_spec(held, path, found) == before.backend.exists_spec(held, path, found)
    &&& forall|held: FsModel, path: Seq<char>, names: Seq<Seq<char>>| #[trigger]
        after.backend.list_spec(held, path, names) == before.backend.list_spec(held, path, names)
    &&& forall|held: FsModel, path: Seq<char>, next: FsModel, ok: bool| #[trigger]
        after.backend.mkdir_spec(held, path, next, ok) == before.backend.mkdir_spec(held, path, next, ok)
}

/// The length of a text in bytes, which is what mount points are ranked by.
pub open spec fn weight(text: Seq<char>) -> usize {
    vstd::utf8::encode_utf8(text).len() as usize
}

/// Whether the normalized path `path` lies at or below the mount point `at`.
/// Everything lies below the root.
pub open spec fn is_under(path: Seq<char>, at: Seq<char>) -> bool {
    at == seq!['/'] || path == at || begins_with(path, at + seq!['/'])
}

/// The path that a backend mounted at `at` is asked for when the normalized
/// path `path` is routed to it.
pub open spec fn sub_path(path: Seq<char>, at: Seq<char>) -> Seq<char> {
    if at == seq!['/'] {
        path
    } else if path == at {
        seq!['/']
    } else {
        path.skip(at.len() as int)
    }
}

/// Whether `path` is routed to mount `k`: it lies under that mount point and
/// under none that stands earlier in the table.
pub open spec fn routes_to(mounts: Seq<Mount>, path: Seq<char>, k: int) -> bool {
    &&& 0 <= k < mounts.len()
    &&& is_under(path, mounts[k].at@)
    &&& forall|j: int| 0 <= j < k ==> !is_under(path, (#[trigger] mounts[j]).at@)
}

/// Whether `path` lies under no mount point.
pub open spec fn unrouted(mounts: Seq<Mount>, path: Seq<char>) -> bool {
    forall|j: int| 0 <= j < mounts.len() ==> !is_under(path, (#[trigger] mounts[j]).at@)
}

/// Whether the mount points stand in falling order of their weight.
pub open spec fn falling(mounts: Seq<Mount>) -> bool {
    forall|i: int, j: int|
        0 <= i < j < mounts.len() ==> weight((#[trigger] mounts[i]).at@) >= weight(
            (#[trigger] mounts[j]).at@,
        )
}

/// The place of a new mount point of weight `w`: before the first mount
/// point that weighs less, after all others.
pub open spec fn mount_position(mounts: Seq<Mount>, w: usize) -> int
    decreases mounts.len(),
{
    if mounts.len() == 0 || weight(mounts[0].at@) < w {
        0
    } else {
        1 + mount_position(mounts.drop_first(), w)
    }
}

/// Longest prefix wins: in a table in falling order, the mount to which a
/// path is routed weighs at least as much as any other mount under which the
/// path lies.
pub proof fn law_longest_prefix_wins(mounts: Seq<Mount>, path: Seq<char>, k: int, other: int)
    requires
        falling(mounts),
        routes_to(mounts, path, k),
        0 <= other < mounts.len(),
        is_under(path, mounts[other].at@),
    ensures
        weight(mounts[k].at@) >= weight(mounts[other].at@),
        k <= other,
{
}

/// A path is routed to at most one mount.
pub proof fn law_route_is_unique(mounts: Seq<Mount>, path: Seq<char>, a: int, b: int)
    requires
        routes_to(mounts, path, a),
        routes_to(mounts, path, b),
    ensures
        a == b,
{
}

/// Whether the normalized path `path` lies at or below the mount point `at`.
pub fn under(path: &Vec<char>, at: &Vec<char>) -> (r: bool)
    ensures
        r == is_under(path@, at@),
{
    let n = at.len();
    proof {
        let root = seq!['/'];
        if n == 1 && at@[0] == '/' {
            assert(at@ =~= root);
        }
    }
    if n == 1 && at[0] == '/' {
        return true;
    }
    if !starts_with(path, at) {
        proof {
            let longer = at@ + seq!['/'];
            if begins_with(path@, longer) {
                assert(path@.take(n as int) =~= path@.take(longer.len() as int).take(n as int));
                assert(longer.take(n as int) =~= at@);
            }
            if path@ == at@ {
                assert(path@.take(n as int) =~= at@);
            }
        }
        return false;
    }
    if path.len() == n {
        assert(path@.take(n as int) =~= path@);
        return true;
    }
    let r = path[n] == '/';
    proof {
        let longer = at@ + seq!['/'];
        if r {
            assert(path@.take(n + 1) =~= longer);
        } else if begins_with(path@, longer) {
            assert(path@.take(n + 1)[n as int] == longer[n as int]);
        }
    }
    r
}

/// Puts `mount` into the table at its place: before the first mount whose
/// mount point weighs less.
fn insert_mount(mounts: &mut Vec<Mount>, mount: Mount)
    ensures
        ({
            let place = mount_position(old(mounts)@, weight(mount.at@));
            &&& 0 <= place <= old(mounts)@.len()
            &&& final(mounts)@ == old(mounts)@.insert(place, mount)
            &&& final(mounts)@.len() == old(mounts)@.len() + 1
            &&& final(mounts)@[place] == mount
            &&& forall|k: int| 0 <= k < place ==> final(mounts)@[k] == old(mounts)@[k]
            &&& forall|k: int|
                place <= k < old(mounts)@.len() ==> final(mounts)@[k + 1] == old(mounts)@[k]
        }),
        falling(old(mounts)@) ==> falling(final(mounts)@),
{
    let w = mount.at.as_str().len();
    let ghost before = mounts@;
    let mut place: usize = 0;
    proof {
        assert(before.skip(0) =~= before);
    }
    while place < mounts.len() && mounts[place].at.as_str().len() >= w
        invariant
            place <= mounts@.len(),
            mounts@ == before,
            w == weight(mount.at@),
            mount_position(before, w) == place + mount_position(before.skip(place as int), w),
            forall|k: int| 0 <= k < place ==> weight((#[trigger] before[k]).at@) >= w,
        decreases mounts@.len() - place,
    {
        proof {
            let rest = before.skip(place as int);
            assert(rest.drop_first() =~= before.skip(place + 1));
        }
        place += 1;
    }
    mounts.insert(place, mount);
}

/// The mount table: backends at mount points, the heaviest mount point
/// first. A path goes to the first mount under whose mount point it lies.
pub struct Vfs {
    mounts: Vec<Mount>,
}

impl Vfs {
    /// The mounts in the order of the table.
    pub closed spec fn mounts(&self) -> Seq<Mount> {
        self.mounts@
    }

    /// An empty table.
    pub fn new() -> (vfs: Self)
        ensures
            vfs.mounts() == Seq::<Mount>::empty(),
            falling(vfs.mounts()),
    {
        Vfs { mounts: Vec::new() }
    }

    /// Mounts `backend` at the normal form of `at`. The new mount takes its
    /// place behind the mounts whose mount point is at least as long, so a
    /// table in falling order stays in falling order.
    pub fn mount(&mut self, at: &str, backend: Box<dyn Backend>)
        ensures
            ({
                let w = weight(normalized(at@));
                let place = mount_position(old(self).mounts(), w);
                &&& 0 <= place <= old(self).mounts().len()
                &&& final(self).mounts().len() == old(self).mounts().len() + 1
                &&& final(self).mounts()[place].at@ == normalized(at@)
                &&& final(self).mounts()[place].backend == backend
                &&& forall|k: int| 0 <= k < place ==> final(self).mounts()[k] == old(self).mounts()[k]
                &&& forall|k: int|
                    place <= k < old(self).mounts().len() ==> final(self).mounts()[k + 1] == old(
                        self,
                    ).mounts()[k]
            }),
            falling(old(self).mounts()) ==> falling(final(self).mounts()),
    {
        let mount = MountOf { at: at.to_owned(), backend };
        self.add_mount(mount);
    }

    /// Mounts the backend of `mount` at the normal form of its mount point,
    /// at the place that [`Vfs::mount`] gives it.
    pub fn add_mount(&mut self, mount: Mount)
        ensures
            ({
                let w = weight(normalized(mount.at@));
                let place = mount_position(old(self).mounts(), w);
                &&& 0 <= place <= old(self).mounts().len()
                &&& final(self).mounts().len() == old(self).mounts().len() + 1
                &&& final(self).mounts()[place].at@ == normalized(mount.at@)
                &&& final(self).mounts()[place].backend == mount.backend
                &&& forall|k: int| 0 <= k < place ==> final(self).mounts()[k] == old(self).mounts()[k]
                &&& forall|k: int|
                    place <= k < old(self).mounts().len() ==> final(self).mounts()[k + 1] == old(
                        self,
                    ).mounts()[k]
            }),
            falling(old(self).mounts()) ==> falling(final(self).mounts()),
    {
        let mut mount = mount;
        let p = norm(mount.at.as_str());
        mount.at = p;
        insert_mount(&mut self.mounts, mount);
    }

    /// The mount to which `path` is routed, as its position in the table,
    /// and the path that its backend is asked for; `None` if the path lies
    /// under no mount point.
    pub fn route(&self, path: &str) -> (r: Option<(usize, String)>)
        ensures
            match r {
                Some((k, sub)) => routes_to(self.mounts(), normalized(path@), k as int) && sub@
                    == sub_path(normalized(path@), self.mounts()[k as int].at@),
                None => unrouted(self.mounts(), normalized(path@)),
            },
    {
        let p = norm(path);
        let chars = chars_of(p.as_str());
        let mut k: usize = 0;
        while k < self.mounts.len()
            invariant
                k <= self.mounts@.len(),
                chars@ == p@,
                p@ == normalized(path@),
                forall|j: int| 0 <= j < k ==> !is_under(p@, (#[trigger] self.mounts@[j]).at@),
            decreases self.mounts@.len() - k,
        {
            let at = &self.mounts[k].at;
            let at_chars = chars_of(at.as_str());
            if under(&chars, &at_chars) {
                proof {
                    let root = seq!['/'];
                    reveal_strlit("/");
                    if at_chars@.len() == 1 && at_chars@[0] == '/' {
                        assert(at_chars@ =~= root);
                    }
                }
                let sub = if at_chars.len() == 1 && at_chars[0] == '/' {
                    p.clone()
                } else if chars.len() == at_chars.len() {
                    "/".to_owned()
                } else {
                    p.as_str().substring_char(at_chars.len(), chars.len()).to_owned()
                };
                return Some((k, sub));
            }
            k += 1;
        }
        None
    }

    /// Reads the file at `path` from the backend to which the path is
    /// routed; `None` if it is routed nowhere.
    pub fn read(&self, path: &str) -> (out: Option<Bytes>)
        ensures
            unrouted(self.mounts(), normalized(path@)) ==> out is None,
            forall|k: int|
                routes_to(self.mounts(), normalized(path@), k) ==> (
                #[trigger] self.mounts()[k]).backend.read_spec(
                    self.mounts()[k].backend.model(),
                    sub_path(normalized(path@), self.mounts()[k].at@),
                    bytes_of(out),
                ),
    {
        match self.route(path) {
            Some((k, sub)) => {
                let out = self.mounts[k].backend.read(sub.as_str());
                out
            },
            None => None,
        }
    }

    /// Asks the backend to which `path` is routed whether something exists
    /// there; `false` if the path is routed nowhere.
    pub fn exists_at(&self, path: &str) -> (found: bool)
        ensures
            unrouted(self.mounts(), normalized(path@)) ==> !found,
            forall|k: int|
                routes_to(self.mounts(), normalized(path@), k) ==> (
                #[trigger] self.mounts()[k]).backend.exists_spec(
                    self.mounts()[k].backend.model(),
                    sub_path(normalized(path@), self.mounts()[k].at@),
                    found,
                ),
    {
        match self.route(path) {
            Some((k, sub)) => {
                let found = self.mounts[k].backend.exists_at(sub.as_str());
                found
            },
            None => false,
        }
    }

    /// Lists `path` in the backend to which the path is routed; nothing if
    /// it is routed nowhere.
    pub fn list(&self, path: &str) -> (names: Vec<String>)
        ensures
            unrouted(self.mounts(), normalized(path@)) ==> names@.len() == 0,
            forall|k: int|
                routes_to(self.mounts(), normalized(path@), k) ==> (
                #[trigger] self.mounts()[k]).backend.list_spec(
                    self.mounts()[k].backend.model(),
                    sub_path(normalized(path@), self.mounts()[k].at@),
                    names_of(names@),
                ),
    {
        match self.route(path) {
            Some((k, sub)) => {
                let names = self.mounts[k].backend.list(sub.as_str());
                names
            },
            None => Vec::new(),
        }
    }

    /// Writes `data` to `path` in the backend to which the path is routed;
    /// `false` if it is routed nowhere. No other backend is touched, and the
    /// mount points stay as they are.
    pub fn write(&mut self, path: &str, data: &[u8]) -> (ok: bool)
        ensures
            final(self).mounts().len() == old(self).mounts().len(),
            forall|j: int|
                0 <= j < old(self).mounts().len() ==> (#[trigger] final(self).mounts()[j]).at
                    == old(self).mounts()[j].at,
            unrouted(old(self).mounts(), normalized(path@)) ==> !ok && final(self).mounts() == old(
                self,
            ).mounts(),
            forall|k: int|
                routes_to(old(self).mounts(), normalized(path@), k) ==> {
                    &&& (#[trigger] old(self).mounts()[k]).backend.write_spec(
                        old(self).mounts()[k].backend.model(),
                        sub_path(normalized(path@), old(self).mounts()[k].at@),
                        data@,
                        final(self).mounts()[k].backend.model(),
                        ok,
                    )
                    &&& same_rules(old(self).mounts()[k], final(self).mounts()[k])
                    &&& forall|j: int|
                        0 <= j < old(self).mounts().len() && j != k ==> final(self).mounts()[j]
                            == old(self).mounts()[j]
                },
    {
        match self.route(path) {
            Some((k, sub)) => {
                let m = &mut self.mounts[k];
                let ok = m.backend.write(sub.as_str(), data);
                ok
            },
            None => false,
        }
    }

    /// Makes the directory `path` in the backend to which the path is
    /// routed; `false` if it is routed nowhere. No other backend is touched,
    /// and the mount points stay as they are.
    pub fn mkdir(&mut self, path: &str) -> (ok: bool)
        ensures
            final(self).mounts().len() == old(self).mounts().len(),
            forall|j: int|
                0 <= j < old(self).mounts().len() ==> (#[trigger] final(self).mounts()[j]).at
                    == old(self).mounts()[j].at,
            unrouted(old(self).mounts(), normalized(path@)) ==> !ok && final(self).mounts() == old(
                self,
            ).mounts(),
            forall|k: int|
                routes_to(old(self).mounts(), normalized(path@), k) ==> {
                    &&& (#[trigger] old(self).mounts()[k]).backend.mkdir_spec(
                        old(self).mounts()[k].backend.model(),
                        sub_path(normalized(path@), old(self).mounts()[k].at@),
                        final(self).mounts()[k].backend.model(),
                        ok,
                    )
                    &&& same_rules(old(self).mounts()[k], final(self).mounts()[k])
                    &&& forall|j: int|
                        0 <= j < old(self).mounts().len() && j != k ==> final(self).mounts()[j]
                            == old(self).mounts()[j]
                },
    {
        match self.route(path) {
            Some((k, sub)) => {
                let m = &mut self.mounts[k];
                let ok = m.backend.mkdir(sub.as_str());
                ok
            },
            None => false,
        }
    }
}

} // verus!
