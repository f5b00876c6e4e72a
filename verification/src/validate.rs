//! Checking the active file line by line against expected records: the
//! test hook of the sink.

use crate::deferred_now::Timestamp;
use crate::directory::Directory;
use crate::state::Inner;
use crate::state::State;
use crate::strutil::has_sub;
use crate::strutil::has_sub_exec;
use vstd::prelude::*;
use vstd::string::StringSliceAdditionalSpecFns;

verus! {

/// The position of the first line feed in `c`, or `-1` when there is none.
pub open spec fn first_newline(c: Seq<u8>) -> int
    decreases c.len(),
{
    if c.len() == 0 {
        -1
    } else if c.first() == 10u8 {
        0
    } else {
        let r = first_newline(c.drop_first());
        if r == -1 {
            -1
        } else {
            r + 1
        }
    }
}

/// The lines of a byte file: every line feed ends a line and stays part of
/// it; bytes after the last line feed form a final line of their own.
pub open spec fn spec_lines(c: Seq<u8>) -> Seq<Seq<u8>>
    decreases c.len(),
{
    if c.len() == 0 {
        Seq::<Seq<u8>>::empty()
    } else {
        let k0 = first_newline(c);
        let k = if 0 <= k0 && k0 < c.len() {
            k0
        } else {
            c.len() - 1
        };
        seq![c.take(k + 1)] + spec_lines(c.skip(k + 1))
    }
}

/// Whether one line carries all three expected pieces.
pub open spec fn matches_line(line: Seq<u8>, piece_a: &str, piece_b: &str, piece_c: &str) -> bool {
    &&& has_sub(line, piece_a.spec_bytes())
    &&& has_sub(line, piece_b.spec_bytes())
    &&& has_sub(line, piece_c.spec_bytes())
}

/// Whether the file holds exactly the expected lines, in order, each
/// carrying its three pieces, with no trailing lines.
pub open spec fn spec_validate<'a>(
    content: Seq<u8>,
    expected: Seq<(&'a str, &'a str, &'a str)>,
) -> bool {
    &&& spec_lines(content).len() == expected.len()
    &&& forall|i: int|
        0 <= i < expected.len() ==> matches_line(
            #[trigger] spec_lines(content)[i],
            expected[i].0,
            expected[i].1,
            expected[i].2,
        )
}

/// The first newline sits exactly where the first line feed byte sits.
proof fn lemma_first_newline_of(c: Seq<u8>, k: int)
    requires
        0 <= k <= c.len(),
        forall|j: int| 0 <= j < k ==> #[trigger] c[j] != 10u8,
        k < c.len() ==> c[k] == 10u8,
    ensures
        first_newline(c) == (if k < c.len() {
            k
        } else {
            -1int
        }),
    decreases k,
{
    if c.len() == 0 {
    } else if k == 0 {
    } else {
        assert(c.first() != 10u8);
        assert forall|j: int| 0 <= j < k - 1 implies #[trigger] c.drop_first()[j] != 10u8 by {
            assert(c.drop_first()[j] == c[j + 1]);
        }
        lemma_first_newline_of(c.drop_first(), k - 1);
    }
}

/// Splits a byte file into its lines.
pub fn split_lines(c: &[u8]) -> (r: Vec<Vec<u8>>)
    ensures
        r@.map_values(|x: Vec<u8>| x@) == spec_lines(c@),
{
    let len = c.len();
    let mut out: Vec<Vec<u8>> = Vec::new();
    let mut p: usize = 0;
    proof {
        assert(c@.skip(0) =~= c@);
    }
    while p < len
        invariant
            0 <= p <= len,
            len == c@.len(),
            out@.map_values(|x: Vec<u8>| x@) + spec_lines(c@.skip(p as int)) =~= spec_lines(c@),
        decreases len - p,
    {
        let ghost rest = c@.skip(p as int);
        let mut j: usize = p;
        while j < len && c[j] != 10u8
            invariant
                p <= j <= len,
                len == c@.len(),
                forall|m: int| p <= m < j ==> #[trigger] c@[m] != 10u8,
            decreases len - j,
        {
            j = j + 1;
        }
        let end = if j < len {
            j + 1
        } else {
            len
        };
        proof {
            assert forall|m: int| 0 <= m < j - p implies #[trigger] rest[m] != 10u8 by {
                assert(rest[m] == c@[p + m]);
            }
            if j < len {
                assert(rest[j - p] == c@[j as int]);
            }
            lemma_first_newline_of(rest, j - p);
            assert(rest.take(end - p) =~= c@.subrange(p as int, end as int));
            assert(rest.skip(end - p) =~= c@.skip(end as int));
            assert(spec_lines(rest) == seq![c@.subrange(p as int, end as int)] + spec_lines(
                c@.skip(end as int),
            ));
        }
        let mut line: Vec<u8> = Vec::new();
        let mut m: usize = p;
        while m < end
            invariant
                p <= m <= end <= len,
                len == c@.len(),
                line@ =~= c@.subrange(p as int, m as int),
            decreases end - m,
        {
            line.push(c[m]);
            proof {
                assert(line@ =~= c@.subrange(p as int, m + 1));
            }
            m = m + 1;
        }
        out.push(line);
        proof {
            assert(out@.map_values(|x: Vec<u8>| x@) + spec_lines(c@.skip(end as int))
                =~= spec_lines(c@));
        }
        p = end;
    }
    proof {
        assert(spec_lines(c@.skip(p as int)) =~= Seq::<Seq<u8>>::empty());
        assert(out@.map_values(|x: Vec<u8>| x@) =~= spec_lines(c@));
    }
    out
}

impl State {
    /// Checks the active file: succeeds exactly when it holds one line per
    /// expected triple, in order, each line carrying all three pieces, and
    /// nothing after them.  A sink still in its initial phase is
    /// initialized first.
    pub fn validate_logs<'a>(
        &mut self,
        dir: &mut Directory,
        now: &Timestamp,
        expected: &Vec<(&'a str, &'a str, &'a str)>,
    ) -> (r: bool)
        requires
            old(self).wf(),
            old(dir).wf(),
            now.wf(),
            now.year >= 0,
        ensures
            final(self).wf(),
            final(dir).wf(),
            final(self).config == old(self).config,
            old(self).inner is Active ==> *final(self) == *old(self) && *final(dir) == *old(dir),
            r <==> (final(self).inner is Active && final(dir).has(final(self).spec_current_path())
                && spec_validate(
                final(dir).content(final(self).spec_current_path()),
                expected@,
            )),
    {
        let is_initial = match &self.inner {
            Inner::Initial(_, _) => true,
            Inner::Active(_) => false,
        };
        if is_initial {
            match self.initialize(dir, now) {
                Ok(()) => {},
                Err(_) => {
                    return false;
                },
            }
        }
        let path = self.current_filename();
        let ghost dirg = *dir;
        let ghost selfg = *self;
        let content = match dir.read(path.as_str()) {
            Some(content) => content,
            None => {
                return false;
            },
        };
        let lines = split_lines(content.as_slice());
        let n = expected.len();
        if lines.len() != n {
            return false;
        }
        let ghost full_self = *self;
        let ghost full_dir = *dir;
        let mut i: usize = 0;
        while i < n
            invariant
                0 <= i <= n,
                n == expected@.len(),
                lines@.map_values(|x: Vec<u8>| x@) == spec_lines(content@),
                lines@.len() == n,
                spec_lines(content@).len() == n,
                content@ == dirg.content(selfg.spec_current_path()),
                dirg.has(selfg.spec_current_path()),
                selfg.inner is Active,
                *self == selfg,
                *dir == dirg,
                selfg.wf(),
                dirg.wf(),
                selfg.config == old(self).config,
                old(self).inner is Active ==> selfg == *old(self) && dirg == *old(dir),
                forall|j: int|
                    0 <= j < i ==> matches_line(
                        #[trigger] spec_lines(content@)[j],
                        expected@[j].0,
                        expected@[j].1,
                        expected@[j].2,
                    ),
            decreases n - i,
        {
            let (piece_a, piece_b, piece_c) = expected[i];
            let line = &lines[i];
            proof {
                assert(lines@.map_values(|x: Vec<u8>| x@)[i as int] == line@);
                assert(spec_lines(content@)[i as int] == line@);
            }
            if !has_sub_exec(line.as_slice(), piece_a.as_bytes()) {
                proof {
                    assert(!matches_line(
                        spec_lines(content@)[i as int],
                        expected@[i as int].0,
                        expected@[i as int].1,
                        expected@[i as int].2,
                    ));
                }
                return false;
            }
            if !has_sub_exec(line.as_slice(), piece_b.as_bytes()) {
                proof {
                    assert(!matches_line(
                        spec_lines(content@)[i as int],
                        expected@[i as int].0,
                        expected@[i as int].1,
                        expected@[i as int].2,
                    ));
                }
                return false;
            }
            if !has_sub_exec(line.as_slice(), piece_c.as_bytes()) {
                proof {
                    assert(!matches_line(
                        spec_lines(content@)[i as int],
                        expected@[i as int].0,
                        expected@[i as int].1,
                        expected@[i as int].2,
                    ));
                }
                return false;
            }
            i = i + 1;
        }
        true
    }
}

} // verus!
