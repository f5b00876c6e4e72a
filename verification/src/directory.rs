//! The sink's view of its slice of the filesystem: a flat collection of
//! named byte files.  The state engine runs over this model; every file
//! operation has an exact contract, so the rename protocol and retention
//! can be verified end to end.

use crate::strutil::str_equal;
use vstd::prelude::*;

verus! {

/// Every file but the named one is exactly as it was: present in `post`
/// iff present in `pre`, with the same bytes.
pub open spec fn untouched_except(pre: Directory, post: Directory, name: Seq<char>) -> bool {
    forall|nm: Seq<char>|
        #![trigger post.has(nm), pre.has(nm)]
        nm != name ==> post.has(nm) == pre.has(nm) && (pre.has(nm) ==> post.content(nm)
            == pre.content(nm))
}

/// Every file but the two named ones is exactly as it was.
pub open spec fn untouched_except_pair(
    pre: Directory,
    post: Directory,
    name_a: Seq<char>,
    name_b: Seq<char>,
) -> bool {
    forall|nm: Seq<char>|
        nm != name_a && nm != name_b ==> #[trigger] post.has(nm) == pre.has(nm) && (pre.has(nm)
            ==> post.content(nm) == pre.content(nm))
}

/// A file exists exactly when its name is among the names.
pub broadcast proof fn lemma_has_names(d: Directory, nm: Seq<char>)
    ensures
        #[trigger] d.has(nm) == d.names().contains(nm),
{
}

/// One file: a name and its bytes.
#[derive(Debug)]
pub struct DirEntry {
    /// The full path of the file.
    pub name: String,
    /// The bytes of the file.
    pub content: Vec<u8>,
}

/// A flat collection of named files with pairwise distinct names.
#[derive(Debug)]
pub struct Directory {
    entries: Vec<DirEntry>,
}

impl Directory {
    /// The file names, in entry order.
    pub closed spec fn names(self) -> Seq<Seq<char>> {
        self.entries@.map_values(|e: DirEntry| e.name@)
    }

    /// Names are pairwise distinct.
    pub open spec fn wf(self) -> bool {
        forall|i: int, j: int|
            0 <= i < j < self.names().len() ==> self.names()[i] != self.names()[j]
    }

    /// Whether a file of this name exists.
    pub closed spec fn has(self, name: Seq<char>) -> bool {
        self.names().contains(name)
    }



    /// The bytes of the file of this name; meaningful only when it exists.
    pub closed spec fn content(self, name: Seq<char>) -> Seq<u8> {
        self.entries@[choose|i: int|
            0 <= i < self.names().len() && self.names()[i] == name].content@
    }

    /// The number of files.
    pub open spec fn file_count(self) -> nat {
        self.names().len()
    }

    /// In a well-formed directory, the entry holding a name determines that
    /// name's content.
    proof fn lemma_content_at(self, i: int)
        requires
            self.wf(),
            0 <= i < self.names().len(),
        ensures
            self.content(self.names()[i]) == self.entries@[i].content@,
            self.has(self.names()[i]),
    {
        let name = self.names()[i];
        let j = choose|j: int| 0 <= j < self.names().len() && self.names()[j] == name;
        assert(self.names()[i] == name);
        assert(0 <= j < self.names().len() && self.names()[j] == name);
        if i != j {
            assert(false);
        }
    }

    /// An empty directory.
    pub fn new() -> (r: Directory)
        ensures
            r.wf(),
            r.file_count() == 0,
            forall|n: Seq<char>| !r.has(n),
    {
        let r = Directory { entries: Vec::new() };
        proof {
            assert(r.names().len() == 0);
        }
        r
    }

    /// The position of the entry of this name.
    fn find_index(&self, name: &str) -> (r: Option<usize>)
        ensures
            match r {
                Some(i) => i < self.names().len() && self.names()[i as int] == name@,
                None => !self.has(name@),
            },
    {
        let n = self.entries.len();
        let mut i: usize = 0;
        while i < n
            invariant
                0 <= i <= n,
                n == self.entries.len(),
                forall|j: int| 0 <= j < i ==> self.names()[j] != name@,
            decreases n - i,
        {
            if str_equal(self.entries[i].name.as_str(), name) {
                proof {
                    assert(self.names()[i as int] == name@);
                }
                return Some(i);
            }
            i = i + 1;
        }
        proof {
            assert(forall|j: int| 0 <= j < self.names().len() ==> self.names()[j] != name@);
        }
        None
    }

    /// Whether a file of this name exists.
    pub fn exists_file(&self, name: &str) -> (r: bool)
        requires
            self.wf(),
        ensures
            r == self.has(name@),
    {
        match self.find_index(name) {
            Some(_) => {
                proof {
                    assert(self.has(name@));
                }
                true
            },
            None => false,
        }
    }

    /// The bytes of the file of this name, when it exists.
    pub fn read(&self, name: &str) -> (r: Option<&Vec<u8>>)
        requires
            self.wf(),
        ensures
            match r {
                Some(c) => self.has(name@) && c@ == self.content(name@),
                None => !self.has(name@),
            },
    {
        match self.find_index(name) {
            Some(i) => {
                proof {
                    self.lemma_content_at(i as int);
                }
                Some(&self.entries[i].content)
            },
            None => None,
        }
    }

    /// Creates the file empty, or truncates it to empty when it exists.
    pub fn create_or_truncate(&mut self, name: &str)
        requires
            old(self).wf(),
        ensures
            final(self).wf(),
            final(self).has(name@),
            final(self).content(name@) == Seq::<u8>::empty(),
            forall|n: Seq<char>|
                n != name@ ==> #[trigger] final(self).has(n) == old(self).has(n) && (old(self).has(
                    n,
                ) ==> final(self).content(n) == old(self).content(n)),
            final(self).file_count() == old(self).file_count() + (if old(self).has(name@) {
                0int
            } else {
                1int
            }),
    {
        match self.find_index(name) {
            Some(i) => {
                proof {
                    old(self).lemma_content_at(i as int);
                }
                let entry = self.entries.remove(i);
                let _ = entry;
                let new_entry = DirEntry { name: name.to_owned(), content: Vec::new() };
                self.entries.push(new_entry);
                proof {
                    assert(self.entries@ =~= old(self).entries@.remove(i as int).push(
                        self.entries@.last(),
                    ));
                    assert(self.names() =~= old(self).names().remove(i as int).push(name@));
                    Self::lemma_replace_pointwise(*old(self), *self, i as int, name@);
                }
            },
            None => {
                let new_entry = DirEntry { name: name.to_owned(), content: Vec::new() };
                self.entries.push(new_entry);
                proof {
                    assert(self.entries@ =~= old(self).entries@.push(self.entries@.last()));
                    assert(self.names() =~= old(self).names().push(name@));
                    Self::lemma_push_pointwise(*old(self), *self, name@);
                }
            },
        }
    }

    /// Removes the file of this name and hands its bytes out.
    pub fn take_file(&mut self, name: &str) -> (r: Vec<u8>)
        requires
            old(self).wf(),
            old(self).has(name@),
        ensures
            final(self).wf(),
            r@ == old(self).content(name@),
            !final(self).has(name@),
            forall|n: Seq<char>|
                n != name@ ==> #[trigger] final(self).has(n) == old(self).has(n) && (old(self).has(
                    n,
                ) ==> final(self).content(n) == old(self).content(n)),
            final(self).file_count() == old(self).file_count() - 1,
    {
        let i = match self.find_index(name) {
            Some(i) => i,
            None => {
                proof {
                    assert(false);
                }
                0
            },
        };
        proof {
            old(self).lemma_content_at(i as int);
        }
        let entry = self.entries.remove(i);
        proof {
            assert(self.entries@ =~= old(self).entries@.remove(i as int));
            assert(self.names() =~= old(self).names().remove(i as int));
            Self::lemma_remove_pointwise(*old(self), *self, i as int);
        }
        entry.content
    }

    /// Deletes the file of this name.
    pub fn remove_file(&mut self, name: &str)
        requires
            old(self).wf(),
            old(self).has(name@),
        ensures
            final(self).wf(),
            !final(self).has(name@),
            forall|n: Seq<char>|
                n != name@ ==> #[trigger] final(self).has(n) == old(self).has(n) && (old(self).has(
                    n,
                ) ==> final(self).content(n) == old(self).content(n)),
            final(self).file_count() == old(self).file_count() - 1,
    {
        let _ = self.take_file(name);
    }

    /// Appends bytes to the file of this name.
    pub fn append_file(&mut self, name: &str, bytes: &[u8])
        requires
            old(self).wf(),
            old(self).has(name@),
        ensures
            final(self).wf(),
            final(self).has(name@),
            final(self).content(name@) == old(self).content(name@) + bytes@,
            forall|n: Seq<char>|
                n != name@ ==> #[trigger] final(self).has(n) == old(self).has(n) && (old(self).has(
                    n,
                ) ==> final(self).content(n) == old(self).content(n)),
            final(self).file_count() == old(self).file_count(),
    {
        let i = match self.find_index(name) {
            Some(i) => i,
            None => {
                proof {
                    assert(false);
                }
                0
            },
        };
        proof {
            old(self).lemma_content_at(i as int);
        }
        let mut entry = self.entries.remove(i);
        entry.content.extend_from_slice(bytes);
        self.entries.push(entry);
        proof {
            assert(self.entries@ =~= old(self).entries@.remove(i as int).push(
                self.entries@.last(),
            ));
            assert(self.names() =~= old(self).names().remove(i as int).push(name@));
            Self::lemma_replace_pointwise(*old(self), *self, i as int, name@);
        }
    }

    /// Moves the file `from` to the name `to`, replacing any file of that
    /// name, as a filesystem rename would.
    pub fn rename_file(&mut self, from: &str, to: &str)
        requires
            old(self).wf(),
            old(self).has(from@),
            from@ != to@,
        ensures
            final(self).wf(),
            !final(self).has(from@),
            final(self).has(to@),
            final(self).content(to@) == old(self).content(from@),
            forall|n: Seq<char>|
                n != from@ && n != to@ ==> #[trigger] final(self).has(n) == old(self).has(n) && (
                old(self).has(n) ==> final(self).content(n) == old(self).content(n)),
            final(self).file_count() == old(self).file_count() - (if old(self).has(to@) {
                1int
            } else {
                0int
            }),
    {
        let content = self.take_file(from);
        self.create_or_truncate(to);
        self.append_file(to, content.as_slice());
        proof {
            assert(final(self).content(to@) =~= old(self).content(from@));
        }
    }

    /// The names of all files, in entry order.
    pub fn file_names(&self) -> (r: Vec<String>)
        ensures
            r@.len() == self.names().len(),
            forall|i: int| 0 <= i < r@.len() ==> #[trigger] r@[i]@ == self.names()[i],
    {
        let n = self.entries.len();
        let mut r: Vec<String> = Vec::new();
        let mut i: usize = 0;
        while i < n
            invariant
                0 <= i <= n,
                n == self.entries.len(),
                r@.len() == i,
                forall|j: int| 0 <= j < i ==> #[trigger] r@[j]@ == self.names()[j],
            decreases n - i,
        {
            r.push(self.entries[i].name.clone());
            i = i + 1;
        }
        r
    }

    /// The number of files.
    pub fn count_files(&self) -> (r: usize)
        ensures
            r == self.file_count(),
    {
        self.entries.len()
    }

    /// After removing position `i`, every other file is untouched.
    proof fn lemma_remove_pointwise(pre: Self, post: Self, i: int)
        requires
            pre.wf(),
            0 <= i < pre.names().len(),
            post.entries@ == pre.entries@.remove(i),
            post.names() == pre.names().remove(i),
        ensures
            post.wf(),
            !post.has(pre.names()[i]),
            forall|n: Seq<char>|
                n != pre.names()[i] ==> #[trigger] post.has(n) == pre.has(n) && (pre.has(n)
                    ==> post.content(n) == pre.content(n)),
            post.file_count() == pre.file_count() - 1,
    {
        assert forall|a: int, b: int|
            0 <= a < b < post.names().len() implies post.names()[a] != post.names()[b] by {
            let a0 = if a < i {
                a
            } else {
                a + 1
            };
            let b0 = if b < i {
                b
            } else {
                b + 1
            };
            assert(post.names()[a] == pre.names()[a0]);
            assert(post.names()[b] == pre.names()[b0]);
        }
        assert forall|j: int| 0 <= j < post.names().len() implies post.names()[j] != pre.names()[i]
            by {
            let j0 = if j < i {
                j
            } else {
                j + 1
            };
            assert(post.names()[j] == pre.names()[j0]);
        }
        assert forall|n: Seq<char>| n != pre.names()[i] implies #[trigger] post.has(n) == pre.has(
            n,
        ) && (pre.has(n) ==> post.content(n) == pre.content(n)) by {
            if pre.has(n) {
                let j = choose|j: int| 0 <= j < pre.names().len() && pre.names()[j] == n;
                pre.lemma_content_at(j);
                assert(j != i);
                let j2 = if j < i {
                    j
                } else {
                    j - 1
                };
                assert(post.names()[j2] == pre.names()[j]);
                assert(post.entries@[j2].content@ == pre.entries@[j].content@);
                post.lemma_content_at(j2);
                assert(post.has(n));
            }
            if post.has(n) {
                let j = choose|j: int| 0 <= j < post.names().len() && post.names()[j] == n;
                let j0 = if j < i {
                    j
                } else {
                    j + 1
                };
                assert(pre.names()[j0] == post.names()[j]);
                assert(pre.has(n));
            }
        }
    }

    /// After removing position `i` (holding `name`) and pushing a fresh
    /// entry for `name`, every other file is untouched.
    proof fn lemma_replace_pointwise(pre: Self, post: Self, i: int, name: Seq<char>)
        requires
            pre.wf(),
            0 <= i < pre.names().len(),
            pre.names()[i] == name,
            post.names() == pre.names().remove(i).push(name),
            post.entries@ == pre.entries@.remove(i).push(post.entries@.last()),
            post.entries@.last().name@ == name,
        ensures
            post.wf(),
            post.has(name),
            post.content(name) == post.entries@.last().content@,
            forall|n: Seq<char>|
                n != name ==> #[trigger] post.has(n) == pre.has(n) && (pre.has(n)
                    ==> post.content(n) == pre.content(n)),
            post.file_count() == pre.file_count(),
    {
        assert forall|a: int, b: int|
            0 <= a < b < post.names().len() implies post.names()[a] != post.names()[b] by {
            let plen = post.names().len();
            if b < plen - 1 {
                let a0 = if a < i {
                    a
                } else {
                    a + 1
                };
                let b0 = if b < i {
                    b
                } else {
                    b + 1
                };
                assert(post.names()[a] == pre.names()[a0]);
                assert(post.names()[b] == pre.names()[b0]);
            } else {
                let a0 = if a < i {
                    a
                } else {
                    a + 1
                };
                assert(post.names()[a] == pre.names()[a0]);
                assert(post.names()[b] == name);
                assert(a0 != i);
            }
        }
        assert(post.names().last() == name);
        assert(post.has(name));
        post.lemma_content_at(post.names().len() - 1);
        assert forall|n: Seq<char>| n != name implies #[trigger] post.has(n) == pre.has(n) && (
        pre.has(n) ==> post.content(n) == pre.content(n)) by {
            if pre.has(n) {
                let j = choose|j: int| 0 <= j < pre.names().len() && pre.names()[j] == n;
                pre.lemma_content_at(j);
                assert(j != i);
                let j2 = if j < i {
                    j
                } else {
                    j - 1
                };
                assert(post.names()[j2] == pre.names()[j]);
                assert(post.entries@[j2].content@ == pre.entries@[j].content@);
                post.lemma_content_at(j2);
                assert(post.has(n) && post.content(n) == pre.content(n));
            }
            if post.has(n) {
                let j = choose|j: int| 0 <= j < post.names().len() && post.names()[j] == n;
                assert(j < post.names().len() - 1);
                let j0 = if j < i {
                    j
                } else {
                    j + 1
                };
                assert(pre.names()[j0] == post.names()[j]);
                assert(pre.has(n));
            }
        }
    }

    /// After pushing a fresh entry for an unknown `name`, every other file
    /// is untouched.
    proof fn lemma_push_pointwise(pre: Self, post: Self, name: Seq<char>)
        requires
            pre.wf(),
            !pre.has(name),
            post.names() == pre.names().push(name),
            post.entries@ == pre.entries@.push(post.entries@.last()),
            post.entries@.last().name@ == name,
        ensures
            post.wf(),
            post.has(name),
            post.content(name) == post.entries@.last().content@,
            forall|n: Seq<char>|
                n != name ==> #[trigger] post.has(n) == pre.has(n) && (pre.has(n)
                    ==> post.content(n) == pre.content(n)),
            post.file_count() == pre.file_count() + 1,
    {
        assert forall|a: int, b: int|
            0 <= a < b < post.names().len() implies post.names()[a] != post.names()[b] by {
            if b < post.names().len() - 1 {
                assert(post.names()[a] == pre.names()[a]);
                assert(post.names()[b] == pre.names()[b]);
            } else {
                assert(post.names()[a] == pre.names()[a]);
                assert(pre.names().contains(pre.names()[a]));
            }
        }
        assert(post.names().last() == name);
        assert(post.has(name));
        post.lemma_content_at(post.names().len() - 1);
        assert forall|n: Seq<char>| n != name implies #[trigger] post.has(n) == pre.has(n) && (
        pre.has(n) ==> post.content(n) == pre.content(n)) by {
            if pre.has(n) {
                let j = choose|j: int| 0 <= j < pre.names().len() && pre.names()[j] == n;
                pre.lemma_content_at(j);
                assert(post.names()[j] == pre.names()[j]);
                assert(post.entries@[j].content@ == pre.entries@[j].content@);
                post.lemma_content_at(j);
            }
            if post.has(n) {
                let j = choose|j: int| 0 <= j < post.names().len() && post.names()[j] == n;
                assert(j < post.names().len() - 1);
                assert(pre.names()[j] == post.names()[j]);
                assert(pre.has(n));
            }
        }
    }
}

} // verus!
