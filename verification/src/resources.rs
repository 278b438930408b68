//! Where the program's assets live, and what a loaded asset must look like.
//!
//! A path is held as its components, outermost first; the caller turns it
//! into a path of the platform.

use vstd::prelude::*;
use vstd::string::StrSliceExecFns;

verus! {

/// Why a resource could not be had.
#[derive(Debug)]
pub enum ResError {
    /// The file system refused; `message` is what it said.
    Io { message: String },
    /// The file holds a zero byte, so it cannot become a C string.
    FileContainsNil,
    /// The directory of the running program is unknown.
    FailedToGetExePath,
}

/// The directory below which every resource is found.
pub struct Resources {
    root_path: Vec<String>,
}

/// The components of a path, each as its text.
pub open spec fn components(path: Seq<String>) -> Seq<Seq<char>> {
    Seq::new(path.len(), |i: int| path[i]@)
}

/// The pieces of `s` between occurrences of `sep`; `n` separators give `n + 1` pieces.
pub open spec fn split_parts(s: Seq<char>, sep: char) -> Seq<Seq<char>>
    decreases s.len(),
{
    if s.len() == 0 {
        seq![Seq::<char>::empty()]
    } else {
        let head = split_parts(s.drop_last(), sep);
        if s.last() == sep {
            head.push(Seq::<char>::empty())
        } else {
            head.update(head.len() - 1, head.last().push(s.last()))
        }
    }
}

/// The pieces of `parts`, with `sep` between each two neighbours.
pub open spec fn join_parts(parts: Seq<Seq<char>>, sep: char) -> Seq<char>
    decreases parts.len(),
{
    if parts.len() == 0 {
        Seq::<char>::empty()
    } else if parts.len() == 1 {
        parts[0]
    } else {
        join_parts(parts.drop_last(), sep).push(sep) + parts.last()
    }
}

/// Splitting never yields nothing, no piece holds the separator, and the
/// pieces joined by the separator are the text that was split.
pub proof fn lemma_split_parts(s: Seq<char>, sep: char)
    ensures
        split_parts(s, sep).len() >= 1,
        forall|k: int, j: int|
            0 <= k < split_parts(s, sep).len() && 0 <= j < split_parts(s, sep)[k].len()
                ==> split_parts(s, sep)[k][j] != sep,
        join_parts(split_parts(s, sep), sep) == s,
    decreases s.len(),
{
    if s.len() > 0 {
        let init = s.drop_last();
        lemma_split_parts(init, sep);
        let head = split_parts(init, sep);
        let all = split_parts(s, sep);
        if s.last() == sep {
            assert(all.drop_last() =~= head);
            assert(join_parts(all, sep) =~= join_parts(head, sep).push(sep));
            assert(init.push(sep) =~= s);
        } else {
            let grown = head.last().push(s.last());
            if head.len() == 1 {
                assert(join_parts(head, sep) == head[0]);
                assert(join_parts(all, sep) == grown);
            } else {
                assert(all.drop_last() =~= head.drop_last());
                assert(join_parts(all, sep) =~= (join_parts(head.drop_last(), sep).push(sep)
                    + head.last()).push(s.last()));
            }
            assert(init.push(s.last()) =~= s);
        }
    } else {
        assert(join_parts(split_parts(s, sep), sep) =~= s);
    }
}

/// The path of the resource `location` below `root_dir`: the components of
/// `root_dir`, then the pieces of `location` between its slashes.
pub fn resource_name_to_path(root_dir: &Vec<String>, location: &str) -> (path: Vec<String>)
    ensures
        components(path@) == components(root_dir@) + split_parts(location@, '/'),
{
    let mut path: Vec<String> = Vec::new();
    let mut k: usize = 0;
    while k < root_dir.len()
        invariant
            k <= root_dir.len(),
            components(path@) == components(root_dir@).take(k as int),
        decreases root_dir.len() - k,
    {
        let ghost copied = path@;
        path.push(root_dir[k].clone());
        assert(components(path@) =~= components(copied).push(root_dir@[k as int]@));
        assert(components(path@) =~= components(root_dir@).take(k as int + 1));
        k += 1;
    }
    assert(components(root_dir@).take(root_dir.len() as int) =~= components(root_dir@));
    let n: usize = location.unicode_len();
    let mut start: usize = 0;
    let mut i: usize = 0;
    assert(location@.take(0) =~= Seq::<char>::empty());
    assert(components(path@) =~= components(root_dir@) + split_parts(location@.take(0), '/').drop_last());
    while i < n
        invariant
            n == location@.len(),
            start <= i <= n,
            components(path@) == components(root_dir@) + split_parts(
                location@.take(i as int),
                '/',
            ).drop_last(),
            split_parts(location@.take(i as int), '/').len() >= 1,
            split_parts(location@.take(i as int), '/').last() == location@.subrange(
                start as int,
                i as int,
            ),
        decreases n - i,
    {
        let c = location.get_char(i);
        let ghost before = location@.take(i as int);
        let ghost after = location@.take(i as int + 1);
        assert(after.drop_last() =~= before);
        assert(after.last() == c);
        if c == '/' {
            let part = location.substring_char(start, i);
            let ghost shorter = path@;
            path.push(part.to_owned());
            assert(components(path@) =~= components(shorter).push(part@));
            start = i + 1;
            assert(split_parts(after, '/').drop_last() =~= split_parts(before, '/'));
            assert(split_parts(before, '/') =~= split_parts(before, '/').drop_last().push(
                split_parts(before, '/').last(),
            ));
            assert(components(path@) =~= components(root_dir@) + split_parts(after, '/').drop_last());
            assert(location@.subrange(start as int, i as int + 1) =~= Seq::<char>::empty());
        } else {
            assert(split_parts(after, '/').drop_last() =~= split_parts(before, '/').drop_last());
            assert(location@.subrange(start as int, i as int + 1) =~= location@.subrange(
                start as int,
                i as int,
            ).push(c));
        }
        i += 1;
    }
    assert(location@.take(n as int) =~= location@);
    let part = location.substring_char(start, n);
    let ghost shorter = path@;
    path.push(part.to_owned());
    assert(components(path@) =~= components(shorter).push(part@));
    assert(split_parts(location@, '/') =~= split_parts(location@, '/').drop_last().push(
        split_parts(location@, '/').last(),
    ));
    assert(components(path@) =~= components(root_dir@) + split_parts(location@, '/'));
    path
}

impl Resources {
    /// The components of the root directory.
    pub closed spec fn root(&self) -> Seq<Seq<char>> {
        components(self.root_path@)
    }

    /// The resources in `rel_path` below the directory of the running program.
    /// `exe_dir` is that directory, or `None` where the platform could not name it.
    pub fn from_relative_exe_path(exe_dir: Option<Vec<String>>, rel_path: &str) -> (r: Result<
        Resources,
        ResError,
    >)
        ensures
            exe_dir is None <==> r is Err,
            r is Err ==> r matches Err(ResError::FailedToGetExePath),
            r matches Ok(res) ==> res.root() == components(exe_dir->0@) + split_parts(
                rel_path@,
                '/',
            ),
    {
        match exe_dir {
            None => Err(ResError::FailedToGetExePath),
            Some(dir) => Ok(Resources { root_path: resource_name_to_path(&dir, rel_path) }),
        }
    }

    /// The path of the resource called `resource_name`.
    pub fn path_of(&self, resource_name: &str) -> (path: Vec<String>)
        ensures
            components(path@) == self.root() + split_parts(resource_name@, '/'),
    {
        resource_name_to_path(&self.root_path, resource_name)
    }

    /// The bytes of a loaded resource, fit to become a C string: they are
    /// handed back unchanged unless one of them is zero.
    pub fn load_cstring(buffer: Vec<u8>) -> (r: Result<Vec<u8>, ResError>)
        ensures
            r is Err <==> buffer@.contains(0u8),
            r is Err ==> r matches Err(ResError::FileContainsNil),
            r matches Ok(bytes) ==> bytes@ == buffer@,
    {
        let mut i: usize = 0;
        while i < buffer.len()
            invariant
                i <= buffer.len(),
                forall|j: int| 0 <= j < i ==> buffer@[j] != 0u8,
            decreases buffer.len() - i,
        {
            if buffer[i] == 0 {
                return Err(ResError::FileContainsNil);
            }
            i += 1;
        }
        Ok(buffer)
    }
}

} // verus!
