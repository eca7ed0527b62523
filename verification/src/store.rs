//! A model of the cache's directory on disk, and the write-temp-then-rename
//! discipline over it.
//!
//! Every operation the cache performs against the file system is one of
//! three whole-file steps: write a file, rename a file over another, read a
//! file. The model keeps a log of these steps; a name's content is the last
//! step that touched it. A crash is modelled as stopping between any two
//! steps — exactly the grain the rename discipline is designed for: the only
//! step that changes the final name's content is the rename, so a crash
//! before it leaves the previous content intact.

use vstd::prelude::*;

verus! {

/// One logged step: a name now holds these bytes (or nothing, after the
/// source of a rename is retired).
type Entry = (String, Option<Vec<u8>>);

/// What a name holds: the last step that touched it decides.
pub open spec fn spec_lookup(files: Seq<(Seq<char>, Option<Seq<u8>>)>, name: Seq<char>) -> Option<
    Seq<u8>,
>
    decreases files.len(),
{
    if files.len() == 0 {
        None
    } else if files.last().0 == name {
        files.last().1
    } else {
        spec_lookup(files.drop_last(), name)
    }
}

/// Writing one file: the new content is logged.
pub open spec fn spec_put(
    files: Seq<(Seq<char>, Option<Seq<u8>>)>,
    name: Seq<char>,
    bytes: Seq<u8>,
) -> Seq<(Seq<char>, Option<Seq<u8>>)> {
    files.push((name, Some(bytes)))
}

/// Renaming `from` over `to`: `to` takes the bytes of `from` and `from` is
/// gone; nothing happens if `from` does not exist.
pub open spec fn spec_rename(
    files: Seq<(Seq<char>, Option<Seq<u8>>)>,
    from: Seq<char>,
    to: Seq<char>,
) -> Seq<(Seq<char>, Option<Seq<u8>>)> {
    match spec_lookup(files, from) {
        Some(b) => files.push((to, Some(b))).push((from, None)),
        None => files,
    }
}

/// A file store: the in-memory model of the cache directory.
#[derive(Clone, Debug)]
pub struct FileStore {
    pub files: Vec<(String, Option<Vec<u8>>)>,
}

impl View for FileStore {
    type V = Seq<(Seq<char>, Option<Seq<u8>>)>;

    open spec fn view(&self) -> Seq<(Seq<char>, Option<Seq<u8>>)> {
        self.files@.map_values(
            |e: Entry|
                (
                    e.0@,
                    match e.1 {
                        Some(ref b) => Some(b@),
                        None => None,
                    },
                ),
        )
    }
}

impl FileStore {
    /// An empty directory.
    pub fn new() -> (r: FileStore)
        ensures
            r@ == Seq::<(Seq<char>, Option<Seq<u8>>)>::empty(),
    {
        let r = FileStore { files: Vec::new() };
        proof {
            assert(r@ =~= Seq::<(Seq<char>, Option<Seq<u8>>)>::empty());
        }
        r
    }

    /// Write a file whole. The step is atomic in the model: a reader sees
    /// the old content or the new one, never a half-written file.
    pub fn put(&mut self, name: String, bytes: Vec<u8>)
        ensures
            final(self)@ == spec_put(old(self)@, name@, bytes@),
    {
        let ghost oldv = self@;
        self.files.push((name, Some(bytes)));
        proof {
            assert(final(self)@ =~= spec_put(oldv, name@, bytes@));
        }
    }

    /// Rename `from` over `to`: the commit point of an atomic write.
    pub fn rename(&mut self, from: &String, to: String)
        ensures
            final(self)@ == spec_rename(old(self)@, from@, to@),
    {
        let ghost oldv = self@;
        match self.lookup(from) {
            Some(b) => {
                let from_copy = from.clone();
                self.files.push((to, Some(b)));
                let ghost mid = self@;
                self.files.push((from_copy, None));
                proof {
                    assert(mid =~= oldv.push((to@, spec_lookup(oldv, from@))));
                    assert(final(self)@ =~= spec_rename(oldv, from@, to@));
                }
            },
            None => {},
        }
    }

    /// Read a file whole.
    pub fn lookup(&self, name: &String) -> (r: Option<Vec<u8>>)
        ensures
            match r {
                Some(b) => spec_lookup(self@, name@) == Some(b@),
                None => spec_lookup(self@, name@) is None,
            },
    {
        let mut i: usize = self.files.len();
        assert(self@.take(self.files@.len() as int) =~= self@);
        while i > 0
            invariant
                i <= self.files@.len(),
                spec_lookup(self@, name@) == spec_lookup(self@.take(i as int), name@),
            decreases i,
        {
            i = i - 1;
            proof {
                assert(self@.take(i + 1 as int).last() == self@[i as int]);
                assert(self@.take(i + 1 as int).drop_last() =~= self@.take(i as int));
            }
            if string_eq(&self.files[i].0, name) {
                return match &self.files[i].1 {
                    Some(b) => {
                        let copy = copy_bytes(b);
                        Some(copy)
                    },
                    None => None,
                };
            }
        }
        assert(self@.take(0) =~= Seq::<(Seq<char>, Option<Seq<u8>>)>::empty());
        None
    }

    /// The whole write-temp-then-rename protocol: write the bytes to the
    /// temp name, then rename it over the target. The rename is the only
    /// step that changes what the target holds.
    pub fn atomic_write(&mut self, target: String, temp: String, bytes: Vec<u8>)
        requires
            temp@ != target@,
        ensures
            final(self)@ == spec_rename(spec_put(old(self)@, temp@, bytes@), temp@, target@),
            spec_lookup(final(self)@, target@) == Some(bytes@),
    {
        let ghost oldv = self@;
        let temp_for_rename = temp.clone();
        self.put(temp, bytes);
        self.rename(&temp_for_rename, target);
        proof {
            let after_put = spec_put(oldv, temp_for_rename@, bytes@);
            assert(spec_lookup(after_put, temp_for_rename@) == Some(bytes@));
            let after = spec_rename(after_put, temp_for_rename@, target@);
            assert(after.last() == (temp_for_rename@, Option::<Seq<u8>>::None));
            assert(after.drop_last() =~= after_put.push((target@, Some(bytes@))));
            assert(after.drop_last().last() == (target@, Some(bytes@)));
            assert(spec_lookup(after, target@) == spec_lookup(after.drop_last(), target@));
            assert(spec_lookup(after.drop_last(), target@) == Some(bytes@));
        }
    }
}

/// Compare two strings.
fn string_eq(a: &String, b: &String) -> (r: bool)
    ensures
        r == (a@ == b@),
{
    <String as PartialEq>::eq(a, b)
}

/// Copy a byte buffer.
fn copy_bytes(b: &Vec<u8>) -> (r: Vec<u8>)
    ensures
        r@ == b@,
{
    vstd::slice::slice_to_vec(b.as_slice())
}

/// A crash between the temp write and the rename leaves the target's
/// previous content intact: writing the temp file touches no other name.
pub proof fn lemma_crash_before_rename_preserves_target(
    files: Seq<(Seq<char>, Option<Seq<u8>>)>,
    temp: Seq<char>,
    target: Seq<char>,
    bytes: Seq<u8>,
)
    requires
        temp != target,
    ensures
        spec_lookup(spec_put(files, temp, bytes), target) == spec_lookup(files, target),
{
    let after = spec_put(files, temp, bytes);
    assert(after.drop_last() =~= files);
}

/// The rename is the commit point: after the whole protocol the target holds
/// exactly the bytes that were written.
pub proof fn lemma_atomic_write_commits(
    files: Seq<(Seq<char>, Option<Seq<u8>>)>,
    temp: Seq<char>,
    target: Seq<char>,
    bytes: Seq<u8>,
)
    requires
        temp != target,
    ensures
        spec_lookup(spec_rename(spec_put(files, temp, bytes), temp, target), target) == Some(
            bytes,
        ),
{
    let after_put = spec_put(files, temp, bytes);
    assert(spec_lookup(after_put, temp) == Some(bytes));
    let after = spec_rename(after_put, temp, target);
    assert(after.last() == (temp, Option::<Seq<u8>>::None));
    assert(after.drop_last() =~= after_put.push((target, Some(bytes))));
    assert(after.drop_last().last() == (target, Some(bytes)));
    assert(spec_lookup(after, target) == spec_lookup(after.drop_last(), target));
    assert(spec_lookup(after.drop_last(), target) == Some(bytes));
}


/// The whole protocol touches nothing else: any other name holds afterwards
/// exactly what it held before.
pub proof fn lemma_atomic_write_preserves_others(
    files: Seq<(Seq<char>, Option<Seq<u8>>)>,
    temp: Seq<char>,
    target: Seq<char>,
    bytes: Seq<u8>,
    other: Seq<char>,
)
    requires
        other != temp,
        other != target,
    ensures
        spec_lookup(spec_rename(spec_put(files, temp, bytes), temp, target), other) == spec_lookup(
            files,
            other,
        ),
{
    let after_put = spec_put(files, temp, bytes);
    assert(spec_lookup(after_put, temp) == Some(bytes));
    let after = spec_rename(after_put, temp, target);
    assert(after.last() == (temp, Option::<Seq<u8>>::None));
    assert(after.drop_last() =~= after_put.push((target, Some(bytes))));
    assert(spec_lookup(after, other) == spec_lookup(after.drop_last(), other));
    assert(after.drop_last().last() == (target, Some(bytes)));
    assert(after.drop_last().drop_last() =~= after_put);
    assert(spec_lookup(after.drop_last(), other) == spec_lookup(after_put, other));
    assert(after_put.drop_last() =~= files);
    assert(spec_lookup(after_put, other) == spec_lookup(files, other));
}

} // verus!
