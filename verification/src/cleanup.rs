//! Retention of rotated files: enumerate the sink's rotated siblings newest
//! first, keep the youngest, compress the next, delete the rest.

use crate::directory::Directory;
use crate::filespec::FileSpec;
use crate::parameters::Cleanup;
use crate::siblings::matches_any_rotated;
use crate::siblings::matches_rotated;
use crate::siblings::matching_files_sorted;
use crate::siblings::rotated_prefix;
use crate::siblings::views;
use crate::strutil::ends_with;
use crate::strutil::last_dot;
use crate::strutil::spec_ends_with;
use crate::strutil::stem_of;
use crate::strutil::stem_of_exec;
use std::io::Write;
use vstd::prelude::*;

verus! {

broadcast use crate::directory::lemma_has_names;

/// What flate2's gzip decoder yields for a byte stream.  The decoder's
/// result depends on the stream alone.
pub uninterp spec fn gunzip_of(bytes: Seq<u8>) -> Seq<u8>;

/// Relies on flate2's `write::GzEncoder` at `Compression::fast`: the result
/// is a gzip stream from which flate2's decoder recovers exactly `data`.
/// Writing into a `Vec` cannot fail, so the unwrapped results are `Ok`.
#[verifier::external_body]
pub fn gzip_fast(data: &[u8]) -> (r: Vec<u8>)
    ensures
        gunzip_of(r@) == data@,
{
    let mut encoder = flate2::write::GzEncoder::new(Vec::new(), flate2::Compression::fast());
    encoder.write_all(data).unwrap();
    encoder.finish().unwrap()
}

/// The name a compressed file takes: the stem of the original with
/// `.log.gz` in place of its extension.
pub open spec fn gz_name_of(name: Seq<char>) -> Seq<char> {
    stem_of(name) + seq!['.', 'l', 'o', 'g', '.', 'g', 'z']
}

/// The name a compressed file takes.
pub fn gz_name_of_exec(name: &str) -> (r: String)
    ensures
        r@ == gz_name_of(name@),
{
    proof {
        reveal_strlit(".log.gz");
    }
    let mut r = stem_of_exec(name);
    r.append(".log.gz");
    proof {
        assert(r@ =~= gz_name_of(name@));
    }
    r
}

/// A suffix fit for retention: free of dots and distinct from the
/// compressed forms' own suffixes.
pub open spec fn suffix_fit_for_retention(suffix: Seq<char>) -> bool {
    &&& forall|i: int| 0 <= i < suffix.len() ==> #[trigger] suffix[i] != '.'
    &&& suffix != seq!['g', 'z']
    &&& suffix != seq!['z', 'i', 'p']
}

/// Every file that is no rotated sibling is exactly as it was.
pub open spec fn nonsiblings_untouched(pre: Directory, post: Directory, fs: FileSpec) -> bool {
    forall|nm: Seq<char>|
        !(#[trigger] matches_any_rotated(nm, fs)) ==> post.has(nm) == pre.has(nm) && (pre.has(nm)
            ==> post.content(nm) == pre.content(nm))
}

/// Every surviving uncompressed rotated sibling was already there, with
/// the same bytes: retention fabricates no log lines.
pub open spec fn survivors_unchanged(pre: Directory, post: Directory, fs: FileSpec) -> bool {
    forall|nm: Seq<char>|
        post.has(nm) && #[trigger] matches_rotated(nm, fs, fs.suffix@) ==> pre.has(nm)
            && post.content(nm) == pre.content(nm)
}

/// The kept uncompressed siblings are the newest: whenever one survives,
/// every name-wise younger sibling of the starting state survives too.
pub open spec fn newest_kept(pre: Directory, post: Directory, fs: FileSpec) -> bool {
    forall|nm: Seq<char>, m: Seq<char>|
        post.has(nm) && #[trigger] matches_rotated(nm, fs, fs.suffix@) && pre.has(m)
            && #[trigger] matches_rotated(m, fs, fs.suffix@) && crate::strutil::lex_less(nm, m)
            ==> post.has(m)
}

/// Every file the pass creates is a rotated sibling in compressed form.
pub open spec fn new_files_compressed(pre: Directory, post: Directory, fs: FileSpec) -> bool {
    forall|nm: Seq<char>|
        #![trigger post.has(nm), pre.has(nm)]
        post.has(nm) && !pre.has(nm) ==> matches_rotated(nm, fs, seq!['g', 'z'])
}

/// The rotated siblings of `spec` in `dir` carrying the given suffix.
pub open spec fn rotated_set(dir: Directory, spec: FileSpec, suffix: Seq<char>) -> Set<Seq<char>> {
    Set::new(|n: Seq<char>| dir.has(n) && matches_rotated(n, spec, suffix))
}

/// How many files each limit keeps: uncompressed, then compressed.
pub open spec fn spec_limits(cleanup: Cleanup) -> (int, int) {
    match cleanup {
        Cleanup::Never => (0, 0),
        Cleanup::KeepLogFiles(l) => (l as int, 0),
        Cleanup::KeepCompressedFiles(z) => (0, z as int),
        Cleanup::KeepLogAndCompressedFiles(l, z) => (l as int, z as int),
    }
}

/// In a name that ends with a dot and `k` dot-free characters, that dot is
/// the last one.
pub proof fn lemma_last_dot_at(name: Seq<char>, k: int)
    requires
        0 <= k,
        name.len() >= k + 1,
        name[name.len() - k - 1] == '.',
        forall|i: int| name.len() - k <= i < name.len() ==> #[trigger] name[i] != '.',
    ensures
        last_dot(name) == name.len() - k - 1,
    decreases k,
{
    if k == 0 {
    } else {
        assert(name.last() != '.');
        lemma_last_dot_at(name.drop_last(), k - 1);
    }
}

/// A rotated sibling's compressed name is itself a rotated sibling in
/// compressed form.
proof fn lemma_gz_name_matches(name: Seq<char>, spec: FileSpec, suffix: Seq<char>)
    requires
        matches_rotated(name, spec, suffix),
        forall|i: int| 0 <= i < suffix.len() ==> #[trigger] suffix[i] != '.',
        suffix != seq!['g', 'z'],
    ensures
        matches_rotated(gz_name_of(name), spec, seq!['g', 'z']),
        !spec_ends_with(name, seq!['.', 'g', 'z']),
{
    let prefix = rotated_prefix(spec);
    let dot = name.len() - suffix.len() - 1;
    assert(name.subrange(name.len() - (seq!['.'] + suffix).len(), name.len() as int) == seq!['.']
        + suffix);
    assert(name[dot] == (seq!['.'] + suffix)[0]);
    assert forall|i: int| name.len() - suffix.len() <= i < name.len() implies #[trigger] name[i]
        != '.' by {
        assert(name[i] == (seq!['.'] + suffix)[i - dot]);
        assert((seq!['.'] + suffix)[i - dot] == suffix[i - dot - 1]);
    }
    lemma_last_dot_at(name, suffix.len() as int);
    assert(stem_of(name) == name.take(dot));
    let g = gz_name_of(name);
    assert(g.len() == dot + 7);
    assert(dot >= prefix.len() + 1);
    assert forall|i: int| 0 <= i < prefix.len() implies #[trigger] g[i] == name[i] by {
        assert(g[i] == stem_of(name)[i]);
    }
    assert(g.take(prefix.len() as int) =~= prefix);
    assert(g[prefix.len() as int] == name[prefix.len() as int]);
    assert(seq!['.'] + seq!['g', 'z'] =~= seq!['.', 'g', 'z']);
    assert(g.subrange(g.len() - 3, g.len() as int) =~= seq!['.', 'g', 'z']);
    assert(spec_ends_with(g, seq!['.'] + seq!['g', 'z']));
    assert forall|i: int| prefix.len() <= i < g.len() - 3 implies #[trigger] g[i] != '/' by {
        if i < dot {
            assert(g[i] == name[i]);
        } else {
            assert(g[i] == seq!['.', 'l', 'o', 'g', '.', 'g', 'z'][i - dot]);
        }
    }
    assert(matches_rotated(g, spec, seq!['g', 'z']));
    if spec_ends_with(name, seq!['.', 'g', 'z']) {
        assert(name[name.len() - 3] == '.');
        if suffix.len() == 0 {
            assert(name[name.len() - 1] == '.');
            assert(name[name.len() - 1] == 'z');
        } else if suffix.len() == 1 {
            assert(name[name.len() - 2] == '.');
            assert(name[name.len() - 2] == 'g');
        } else if suffix.len() == 2 {
            assert(suffix[0] == 'g' && suffix[1] == 'z');
            assert(suffix =~= seq!['g', 'z']);
        } else {
            assert(name[name.len() - 3] == suffix[suffix.len() - 3]);
        }
    }
}

/// Two sibling patterns with distinct dot-free suffixes match no name in
/// common.
pub proof fn lemma_suffix_match_exclusive(name: Seq<char>, spec: FileSpec, s1: Seq<char>, s2: Seq<char>)
    requires
        matches_rotated(name, spec, s1),
        matches_rotated(name, spec, s2),
        forall|i: int| 0 <= i < s1.len() ==> #[trigger] s1[i] != '.',
        forall|i: int| 0 <= i < s2.len() ==> #[trigger] s2[i] != '.',
    ensures
        s1 == s2,
{
    let d1 = seq!['.'] + s1;
    let d2 = seq!['.'] + s2;
    assert(name.subrange(name.len() - d1.len(), name.len() as int) == d1);
    assert(name.subrange(name.len() - d2.len(), name.len() as int) == d2);
    if s1.len() < s2.len() {
        assert(name[name.len() - d1.len()] == d1[0]);
        assert(name[name.len() - d1.len()] == d2[d2.len() - d1.len()]);
        assert(d2[d2.len() - d1.len()] == s2[s2.len() - s1.len() - 1]);
        assert(false);
    } else if s2.len() < s1.len() {
        assert(name[name.len() - d2.len()] == d2[0]);
        assert(name[name.len() - d2.len()] == d1[d1.len() - d2.len()]);
        assert(d1[d1.len() - d2.len()] == s1[s1.len() - s2.len() - 1]);
        assert(false);
    } else {
        assert forall|i: int| 0 <= i < s1.len() implies s1[i] == s2[i] by {
            assert(s1[i] == d1[i + 1] && s2[i] == d2[i + 1]);
            assert(d1[i + 1] == name[name.len() - d1.len() + i + 1]);
            assert(d2[i + 1] == name[name.len() - d2.len() + i + 1]);
        }
        assert(s1 =~= s2);
    }
}

/// Deletes and compresses rotated siblings by age rank: with limits
/// `(L, Z)` and the siblings ordered newest first, uncompressed files
/// first, the files ranked below `L` stay, those ranked from `L` up to
/// `L + Z` are compressed unless they already are, and the rest are
/// deleted.  Afterwards at most `L` uncompressed rotated siblings remain,
/// and, when at least `L` uncompressed ones were present, at most `Z`
/// compressed ones.
#[verifier::rlimit(100)]
pub fn remove_or_compress_too_old_logfiles_impl(
    dir: &mut Directory,
    cleanup: &Cleanup,
    spec: &FileSpec,
)
    requires
        old(dir).wf(),
        suffix_fit_for_retention(spec.suffix@),
    ensures
        final(dir).wf(),
        cleanup is Never ==> *final(dir) == *old(dir),
        nonsiblings_untouched(*old(dir), *final(dir), *spec),
        survivors_unchanged(*old(dir), *final(dir), *spec),
        newest_kept(*old(dir), *final(dir), *spec),
        new_files_compressed(*old(dir), *final(dir), *spec),
        !(cleanup is Never) ==> rotated_set(*final(dir), *spec, spec.suffix@).finite()
            && rotated_set(*final(dir), *spec, spec.suffix@).len() <= spec_limits(*cleanup).0,
        !(cleanup is Never) ==> rotated_set(*final(dir), *spec, spec.suffix@).len() >= (if (
        spec_limits(*cleanup).0) <= rotated_set(*old(dir), *spec, spec.suffix@).len() {
            spec_limits(*cleanup).0
        } else {
            rotated_set(*old(dir), *spec, spec.suffix@).len() as int
        }),
        !(cleanup is Never) && rotated_set(*old(dir), *spec, spec.suffix@).len() >= spec_limits(
            *cleanup,
        ).0 ==> rotated_set(*final(dir), *spec, seq!['g', 'z']).finite() && rotated_set(
            *final(dir),
            *spec,
            seq!['g', 'z'],
        ).len() <= spec_limits(*cleanup).1,
{
    proof {
        reveal_strlit("gz");
        reveal_strlit("zip");
        assert("gz"@ =~= seq!['g', 'z']);
        assert("zip"@ =~= seq!['z', 'i', 'p']);
    }
    let (log_limit, compress_limit): (usize, usize) = match cleanup {
        Cleanup::Never => {
            return ;
        },
        Cleanup::KeepLogFiles(l) => (*l, 0),
        Cleanup::KeepCompressedFiles(z) => (0, *z),
        Cleanup::KeepLogAndCompressedFiles(l, z) => (*l, *z),
    };
    let ghost ll = log_limit as int;
    let ghost cl = compress_limit as int;
    let mut files = matching_files_sorted(dir, spec, spec.suffix.as_str());
    let mut gzs = matching_files_sorted(dir, spec, "gz");
    let mut zips = matching_files_sorted(dir, spec, "zip");
    let ghost logs0 = views(files@);
    let ghost gzs0 = views(gzs@);
    let ghost zips0 = views(zips@);
    let ghost p: int = files@.len() as int;
    files.append(&mut gzs);
    let ghost pg: int = files@.len() as int;
    files.append(&mut zips);
    let ghost lst = views(files@);
    proof {
        assert(lst =~= logs0 + gzs0 + zips0);
        // the combined listing repeats no name: the three patterns are
        // mutually exclusive and each part is duplicate-free
        assert forall|a: int, b: int| 0 <= a < b < lst.len() implies lst[a] != lst[b] by {
            if lst[a] == lst[b] {
                if a < p && b < p {
                    assert(logs0[a] == lst[a] && logs0[b] == lst[b]);
                } else if p <= a && a < pg && p <= b && b < pg {
                    assert(gzs0[a - p] == lst[a] && gzs0[b - p] == lst[b]);
                } else if pg <= a && pg <= b {
                    assert(zips0[a - pg] == lst[a] && zips0[b - pg] == lst[b]);
                } else if a < p && p <= b && b < pg {
                    lemma_suffix_match_exclusive(lst[a], *spec, spec.suffix@, seq!['g', 'z']);
                } else if a < p && pg <= b {
                    lemma_suffix_match_exclusive(lst[a], *spec, spec.suffix@, seq!['z', 'i', 'p']);
                } else {
                    lemma_suffix_match_exclusive(lst[a], *spec, seq!['g', 'z'], seq!['z', 'i', 'p']);
                }
            }
        }
        // the uncompressed siblings of the starting state are exactly the
        // first part of the listing
        assert(rotated_set(*old(dir), *spec, spec.suffix@) =~= logs0.to_set());
        logs0.unique_seq_to_set();
        assert(seq!['.'] + seq!['g', 'z'] =~= seq!['.', 'g', 'z']);
        assert forall|nm: Seq<char>|
            dir.has(nm) && matches_rotated(nm, *spec, spec.suffix@) implies exists|j: int|
            0 <= j < p && #[trigger] lst[j] == nm && (j < 0 ==> j < ll) by {
            assert(logs0.contains(nm));
            let j = choose|j: int| 0 <= j < logs0.len() && logs0[j] == nm;
            assert(lst[j] == nm);
        }
        assert forall|nm: Seq<char>|
            #![trigger dir.has(nm)]
            dir.has(nm) && matches_rotated(nm, *spec, seq!['g', 'z']) implies exists|j: int|
            p <= j < pg && #[trigger] lst[j] == nm && (j < 0 ==> j < ll + cl) by {
            assert(gzs0.contains(nm));
            let j = choose|j: int| 0 <= j < gzs0.len() && gzs0[j] == nm;
            assert(lst[p + j] == nm);
        }
    }
    let n = files.len();
    let mut i: usize = 0;
    while i < n
        invariant
            0 <= i <= n,
            n == lst.len(),
            lst == views(files@),
            lst =~= logs0 + gzs0 + zips0,
            0 <= p <= pg <= n,
            p == logs0.len() && pg - p == gzs0.len(),
            ll == log_limit as int && cl == compress_limit as int,
            suffix_fit_for_retention(spec.suffix@),
            seq!['.'] + seq!['g', 'z'] =~= seq!['.', 'g', 'z'],
            forall|a: int, b: int| 0 <= a < b < lst.len() ==> lst[a] != lst[b],
            forall|j: int| 0 <= j < p ==> matches_rotated(#[trigger] lst[j], *spec, spec.suffix@),
            forall|j: int| p <= j < pg ==> matches_rotated(#[trigger] lst[j], *spec, seq!['g', 'z']),
            forall|j: int|
                pg <= j < n ==> matches_rotated(#[trigger] lst[j], *spec, seq!['z', 'i', 'p']),
            dir.wf(),
            forall|j: int|
                i <= j < n ==> dir.has(#[trigger] lst[j]) && (j < p ==> dir.content(lst[j]) == old(
                    dir,
                ).content(lst[j])),
            nonsiblings_untouched(*old(dir), *dir, *spec),
            forall|nm: Seq<char>|
                dir.has(nm) && matches_rotated(nm, *spec, spec.suffix@) ==> (exists|j: int|
                    0 <= j < p && #[trigger] lst[j] == nm && (j < i ==> j < ll)) && dir.content(nm)
                    == old(dir).content(nm),
            forall|j: int|
                0 <= j < i && j < ll && j < p ==> dir.has(#[trigger] lst[j]) && dir.content(
                    lst[j],
                ) == old(dir).content(lst[j]),
            new_files_compressed(*old(dir), *dir, *spec),
            forall|nm: Seq<char>|
                #![trigger dir.has(nm)]
                dir.has(nm) && matches_rotated(nm, *spec, seq!['g', 'z']) ==> (exists|j: int|
                    p <= j < pg && #[trigger] lst[j] == nm && (j < i ==> j < ll + cl)) || (exists|
                j: int|
                    0 <= j < i && ll <= j < ll + cl && !matches_rotated(
                        #[trigger] lst[j],
                        *spec,
                        seq!['g', 'z'],
                    ) && nm == gz_name_of(lst[j])),
        decreases n - i,
    {
        let ghost dir0 = *dir;
        let ghost ii = i as int;
        if i >= log_limit && i - log_limit >= compress_limit {
            proof {
                assert(dir.has(lst[ii]));
                assert(files@[ii]@ == lst[ii]);
            }
            dir.remove_file(files[i].as_str());
            proof {
                assert forall|nm: Seq<char>|
                    !matches_any_rotated(nm, *spec) implies #[trigger] dir.has(nm) == old(
                    dir,
                ).has(nm) && (old(dir).has(nm) ==> dir.content(nm) == old(dir).content(nm)) by {
                    assert(nm != lst[ii]);
                    assert(files@[ii]@ == lst[ii]);
                    assert(dir.has(nm) == dir0.has(nm));
                    assert(dir0.has(nm) ==> dir.content(nm) == dir0.content(nm));
                    assert(dir0.has(nm) == old(dir).has(nm));
                    assert(old(dir).has(nm) ==> dir0.content(nm) == old(dir).content(nm));
                }
                assert(nonsiblings_untouched(*old(dir), *dir, *spec));
                assert forall|nm: Seq<char>|
                    dir.has(nm) && matches_rotated(nm, *spec, spec.suffix@) implies (exists|j: int|
                    0 <= j < p && #[trigger] lst[j] == nm && (j < ii + 1 ==> j < ll)) && dir.content(
                    nm,
                ) == old(dir).content(nm) by {
                    assert(nm != lst[ii]);
                    assert(dir0.has(nm));
                    assert(dir.content(nm) == dir0.content(nm));
                    let j = choose|j: int| 0 <= j < p && lst[j] == nm && (j < ii ==> j < ll);
                    assert(lst[j] == nm && (j < ii + 1 ==> j < ll));
                }
                assert forall|j: int|
                    0 <= j < ii + 1 && j < ll && j < p implies dir.has(#[trigger] lst[j])
                    && dir.content(lst[j]) == old(dir).content(lst[j]) by {
                    assert(lst[j] != lst[ii]);
                    assert(dir0.has(lst[j]) && dir0.content(lst[j]) == old(dir).content(lst[j]));
                    assert(dir.has(lst[j]) == dir0.has(lst[j]));
                    assert(dir.content(lst[j]) == dir0.content(lst[j]));
                }
                assert forall|j: int|
                    ii + 1 <= j < n implies dir.has(#[trigger] lst[j]) && (j < p ==> dir.content(
                    lst[j],
                ) == old(dir).content(lst[j])) by {
                    assert(lst[j] != lst[ii]);
                    assert(dir0.has(lst[j]) && (j < p ==> dir0.content(lst[j]) == old(
                        dir,
                    ).content(lst[j])));
                    assert(dir.has(lst[j]) == dir0.has(lst[j]));
                    assert(dir.content(lst[j]) == dir0.content(lst[j]));
                }
                assert forall|nm: Seq<char>|
                    #![trigger dir.has(nm)]
                    dir.has(nm) && matches_rotated(nm, *spec, seq!['g', 'z']) implies (exists|
                    j: int|
                    p <= j < pg && #[trigger] lst[j] == nm && (j < ii + 1 ==> j < ll + cl)) || (
                exists|j: int|
                    0 <= j < ii + 1 && ll <= j < ll + cl && !matches_rotated(
                        #[trigger] lst[j],
                        *spec,
                        seq!['g', 'z'],
                    ) && nm == gz_name_of(lst[j])) by {
                    assert(nm != lst[ii]);
                    assert(dir0.has(nm));
                    if exists|j: int| p <= j < pg && lst[j] == nm && (j < ii ==> j < ll + cl) {
                        let j = choose|j: int|
                            p <= j < pg && lst[j] == nm && (j < ii ==> j < ll + cl);
                        assert(lst[j] == nm && (j < ii + 1 ==> j < ll + cl));
                    } else {
                        let j = choose|j: int|
                            0 <= j < ii && ll <= j < ll + cl && !matches_rotated(
                                lst[j],
                                *spec,
                                seq!['g', 'z'],
                            ) && nm == gz_name_of(lst[j]);
                        assert(0 <= j < ii + 1 && ll <= j < ll + cl && !matches_rotated(
                            lst[j],
                            *spec,
                            seq!['g', 'z'],
                        ) && nm == gz_name_of(lst[j]));
                    }
                }
            }
        } else if i >= log_limit {
            if !ends_with(files[i].as_str(), ".gz") {
                proof {
                    reveal_strlit(".gz");
                    assert(".gz"@ =~= seq!['.', 'g', 'z']);
                }
                proof {
                    assert(dir.has(lst[ii]));
                    assert(files@[ii]@ == lst[ii]);
                }
                let bytes = dir.take_file(files[i].as_str());
                let ghost mid1 = *dir;
                proof {
                    assert forall|n: Seq<char>| n != lst[ii] implies #[trigger] mid1.has(n)
                        == dir0.has(n) && (dir0.has(n) ==> mid1.content(n) == dir0.content(n)) by {
                        assert(n != files@[ii]@);
                        assert(mid1.has(n) == dir0.has(n));
                        assert(dir0.has(n) ==> mid1.content(n) == dir0.content(n));
                    }
                }
                let zipped = gzip_fast(bytes.as_slice());
                let gzname = gz_name_of_exec(files[i].as_str());
                proof {
                    if ii < p {
                        lemma_gz_name_matches(lst[ii], *spec, spec.suffix@);
                    } else {
                        assert(pg <= ii < n);
                        lemma_gz_name_matches(lst[ii], *spec, seq!['z', 'i', 'p']);
                    }
                    assert(matches_rotated(gzname@, *spec, seq!['g', 'z']));
                    assert(!matches_rotated(lst[ii], *spec, seq!['g', 'z']));
                }
                dir.create_or_truncate(gzname.as_str());
                let ghost mid2 = *dir;
                proof {
                    assert forall|n: Seq<char>| n != gzname@ implies #[trigger] mid2.has(n)
                        == mid1.has(n) && (mid1.has(n) ==> mid2.content(n) == mid1.content(n)) by {
                        assert(mid2.has(n) == mid1.has(n));
                        assert(mid1.has(n) ==> mid2.content(n) == mid1.content(n));
                    }
                }
                dir.append_file(gzname.as_str(), zipped.as_slice());
                proof {
                    assert forall|n: Seq<char>| n != gzname@ implies #[trigger] dir.has(n)
                        == mid2.has(n) && (mid2.has(n) ==> dir.content(n) == mid2.content(n)) by {
                        assert(dir.has(n) == mid2.has(n));
                        assert(mid2.has(n) ==> dir.content(n) == mid2.content(n));
                    }
                }
                proof {
                    assert forall|nm: Seq<char>|
                        !matches_any_rotated(nm, *spec) implies #[trigger] dir.has(nm) == old(
                        dir,
                    ).has(nm) && (old(dir).has(nm) ==> dir.content(nm) == old(dir).content(
                        nm,
                    )) by {
                        assert(nm != lst[ii]);
                        assert(nm != gzname@);
                        assert(files@[ii]@ == lst[ii]);
                        assert(mid1.has(nm) == dir0.has(nm));
                        assert(dir0.has(nm) ==> mid1.content(nm) == dir0.content(nm));
                        assert(mid2.has(nm) == mid1.has(nm));
                        assert(mid1.has(nm) ==> mid2.content(nm) == mid1.content(nm));
                        assert(dir.has(nm) == mid2.has(nm));
                        assert(mid2.has(nm) ==> dir.content(nm) == mid2.content(nm));
                        assert(dir.has(nm) == dir0.has(nm));
                        assert(dir0.has(nm) ==> dir.content(nm) == dir0.content(nm));
                        assert(dir0.has(nm) == old(dir).has(nm));
                        assert(old(dir).has(nm) ==> dir0.content(nm) == old(dir).content(nm));
                    }
                    assert(nonsiblings_untouched(*old(dir), *dir, *spec));
                    assert forall|j: int|
                        0 <= j < ii + 1 && j < ll && j < p implies dir.has(#[trigger] lst[j])
                        && dir.content(lst[j]) == old(dir).content(lst[j]) by {
                        assert(lst[j] != lst[ii]);
                        if lst[j] == gzname@ {
                            lemma_suffix_match_exclusive(
                                lst[j],
                                *spec,
                                spec.suffix@,
                                seq!['g', 'z'],
                            );
                            assert(false);
                        }
                        assert(dir0.has(lst[j]) && dir0.content(lst[j]) == old(dir).content(
                            lst[j],
                        ));
                        assert(mid1.has(lst[j]) == dir0.has(lst[j]));
                        assert(dir0.has(lst[j]) ==> mid1.content(lst[j]) == dir0.content(lst[j]));
                        assert(mid2.has(lst[j]) == mid1.has(lst[j]));
                        assert(mid1.has(lst[j]) ==> mid2.content(lst[j]) == mid1.content(lst[j]));
                        assert(dir.has(lst[j]) == mid2.has(lst[j]));
                        assert(mid2.has(lst[j]) ==> dir.content(lst[j]) == mid2.content(lst[j]));
                    }
                    assert forall|j: int|
                        ii + 1 <= j < n implies dir.has(#[trigger] lst[j]) && (j < p
                        ==> dir.content(lst[j]) == old(dir).content(lst[j])) by {
                        assert(lst[j] != lst[ii]);
                        if lst[j] == gzname@ {
                            assert(dir.has(lst[j]));
                        } else {
                            assert(mid1.has(lst[j]) == dir0.has(lst[j]));
                            assert(mid2.has(lst[j]) == mid1.has(lst[j]));
                            assert(dir.has(lst[j]) == mid2.has(lst[j]));
                        }
                        if j < p {
                            if lst[j] == gzname@ {
                                lemma_suffix_match_exclusive(
                                    lst[j],
                                    *spec,
                                    spec.suffix@,
                                    seq!['g', 'z'],
                                );
                                assert(false);
                            }
                            assert(dir0.has(lst[j]) && dir0.content(lst[j]) == old(dir).content(
                                lst[j],
                            ));
                            assert(dir0.has(lst[j]) ==> mid1.content(lst[j]) == dir0.content(
                                lst[j],
                            ));
                            assert(mid1.has(lst[j]) ==> mid2.content(lst[j]) == mid1.content(
                                lst[j],
                            ));
                            assert(mid2.has(lst[j]) ==> dir.content(lst[j]) == mid2.content(
                                lst[j],
                            ));
                        }
                    }
                    assert forall|nm: Seq<char>|
                        dir.has(nm) && matches_rotated(nm, *spec, spec.suffix@) implies (exists|
                    j: int|
                        0 <= j < p && #[trigger] lst[j] == nm && (j < ii + 1 ==> j < ll))
                        && dir.content(nm) == old(dir).content(nm) by {
                        if nm != gzname@ && nm != lst[ii] {
                            assert(mid1.has(nm) == dir0.has(nm));
                            assert(dir0.has(nm) ==> mid1.content(nm) == dir0.content(nm));
                            assert(mid2.has(nm) == mid1.has(nm));
                            assert(mid1.has(nm) ==> mid2.content(nm) == mid1.content(nm));
                            assert(dir.has(nm) == mid2.has(nm));
                            assert(mid2.has(nm) ==> dir.content(nm) == mid2.content(nm));
                        }
                        if nm == gzname@ {
                            lemma_suffix_match_exclusive(
                                nm,
                                *spec,
                                spec.suffix@,
                                seq!['g', 'z'],
                            );
                            assert(false);
                        }
                        assert(nm != lst[ii]);
                        assert(dir0.has(nm));
                        let j = choose|j: int| 0 <= j < p && lst[j] == nm && (j < ii ==> j < ll);
                        assert(lst[j] == nm && (j < ii + 1 ==> j < ll));
                    }
                    assert forall|nm: Seq<char>|
                        #![trigger dir.has(nm)]
                        dir.has(nm) && matches_rotated(nm, *spec, seq!['g', 'z']) implies (exists|
                    j: int|
                        p <= j < pg && #[trigger] lst[j] == nm && (j < ii + 1 ==> j < ll + cl)) || (
                    exists|j: int|
                        0 <= j < ii + 1 && ll <= j < ll + cl && !matches_rotated(
                            #[trigger] lst[j],
                            *spec,
                            seq!['g', 'z'],
                        ) && nm == gz_name_of(lst[j])) by {
                        if nm == gzname@ {
                            assert(0 <= ii < ii + 1 && ll <= ii < ll + cl && !matches_rotated(
                                lst[ii],
                                *spec,
                                seq!['g', 'z'],
                            ) && nm == gz_name_of(lst[ii]));
                        } else {
                            assert(nm != lst[ii]);
                            assert(dir0.has(nm));
                            if exists|j: int|
                                p <= j < pg && lst[j] == nm && (j < ii ==> j < ll + cl) {
                                let j = choose|j: int|
                                    p <= j < pg && lst[j] == nm && (j < ii ==> j < ll + cl);
                                assert(lst[j] == nm && (j < ii + 1 ==> j < ll + cl));
                            } else {
                                let j = choose|j: int|
                                    0 <= j < ii && ll <= j < ll + cl && !matches_rotated(
                                        lst[j],
                                        *spec,
                                        seq!['g', 'z'],
                                    ) && nm == gz_name_of(lst[j]);
                                assert(0 <= j < ii + 1 && ll <= j < ll + cl && !matches_rotated(
                                    lst[j],
                                    *spec,
                                    seq!['g', 'z'],
                                ) && nm == gz_name_of(lst[j]));
                            }
                        }
                    }
                }
            } else {
                proof {
                    reveal_strlit(".gz");
                    assert(".gz"@ =~= seq!['.', 'g', 'z']);
                    lemma_keep_step(*dir, lst, p, pg, ii, ll, cl, *spec, true);
                }
            }
        } else {
            proof {
                lemma_keep_step(*dir, lst, p, pg, ii, ll, cl, *spec, false);
            }
        }
        proof {
            // whichever branch ran, no ordinary file moved this iteration
            assert forall|nm: Seq<char>|
                !matches_any_rotated(nm, *spec) implies dir.has(nm) == old(dir).has(nm) && (old(
                dir,
            ).has(nm) ==> dir.content(nm) == old(dir).content(nm)) by {
                assert(dir.has(nm) == old(dir).has(nm));
                assert(old(dir).has(nm) ==> dir.content(nm) == old(dir).content(nm));
            }
            assert(nonsiblings_untouched(*old(dir), *dir, *spec));
        }
        i = i + 1;
    }
    proof {
        broadcast use vstd::seq_lib::seq_to_set_is_finite;

        let plain_set = rotated_set(*dir, *spec, spec.suffix@);
        let keep_plain = lst.subrange(0, if ll < p { ll } else { p });
        assert forall|nm: Seq<char>| plain_set.contains(nm) implies keep_plain.to_set().contains(
            nm,
        ) by {
            let j = choose|j: int| 0 <= j < p && lst[j] == nm && (j < n ==> j < ll);
            assert(keep_plain[j] == nm);
        }
        keep_plain.lemma_cardinality_of_set();
        vstd::set_lib::lemma_len_subset(plain_set, keep_plain.to_set());
        // the ranks below the limit survive unchanged, so at least
        // min(limit, what existed) files remain
        assert forall|j: int| 0 <= j < keep_plain.len() implies plain_set.contains(
            #[trigger] keep_plain[j],
        ) by {
            assert(dir.has(lst[j]));
            assert(matches_rotated(lst[j], *spec, spec.suffix@));
        }
        assert forall|x: Seq<char>| keep_plain.to_set().contains(x) implies plain_set.contains(
            x,
        ) by {
            assert(keep_plain.contains(x));
            let j = choose|j: int| 0 <= j < keep_plain.len() && keep_plain[j] == x;
            assert(plain_set.contains(keep_plain[j]));
        }
        assert(keep_plain.to_set().subset_of(plain_set));
        assert forall|a: int, b: int|
            0 <= a < b < keep_plain.len() implies keep_plain[a] != keep_plain[b] by {
            assert(keep_plain[a] == lst[a] && keep_plain[b] == lst[b]);
        }
        assert(keep_plain.no_duplicates());
        keep_plain.unique_seq_to_set();
        vstd::set_lib::lemma_len_subset(keep_plain.to_set(), plain_set);
        if rotated_set(*old(dir), *spec, spec.suffix@).len() >= ll {
            assert(p >= ll);
            let lo = if ll < n as int {
                ll
            } else {
                n as int
            };
            let hi = if ll + cl < n as int {
                ll + cl
            } else {
                n as int
            };
            let covering = lst.subrange(lo, hi).map_values(
                |nm: Seq<char>|
                    if matches_rotated(nm, *spec, seq!['g', 'z']) {
                        nm
                    } else {
                        gz_name_of(nm)
                    },
            );
            let gz_set = rotated_set(*dir, *spec, seq!['g', 'z']);
            assert forall|nm: Seq<char>| gz_set.contains(nm) implies covering.to_set().contains(
                nm,
            ) by {
                if exists|j: int| p <= j < pg && lst[j] == nm && (j < n ==> j < ll + cl) {
                    let j = choose|j: int| p <= j < pg && lst[j] == nm && (j < n ==> j < ll + cl);
                    assert(covering[j - lo] == nm);
                } else {
                    let j = choose|j: int|
                        0 <= j < n && ll <= j < ll + cl && !matches_rotated(
                            lst[j],
                            *spec,
                            seq!['g', 'z'],
                        ) && nm == gz_name_of(lst[j]);
                    assert(covering[j - lo] == nm);
                }
            }
            covering.lemma_cardinality_of_set();
            vstd::set_lib::lemma_len_subset(gz_set, covering.to_set());
            assert(covering.len() == hi - lo <= cl);
        }
    }
}

/// A step that touches nothing keeps the survivor bookkeeping, with the
/// current rank either kept outright or already in compressed form.
proof fn lemma_keep_step(
    dir: Directory,
    lst: Seq<Seq<char>>,
    p: int,
    pg: int,
    ii: int,
    ll: int,
    cl: int,
    spec: FileSpec,
    in_gz_band: bool,
)
    requires
        suffix_fit_for_retention(spec.suffix@),
        0 <= ll && 0 <= cl,
        0 <= p <= pg <= lst.len(),
        0 <= ii < lst.len(),
        forall|j: int| 0 <= j < p ==> matches_rotated(#[trigger] lst[j], spec, spec.suffix@),
        in_gz_band ==> ll <= ii < ll + cl && spec_ends_with(lst[ii], seq!['.', 'g', 'z']),
        !in_gz_band ==> ii < ll,
        forall|nm: Seq<char>|
            dir.has(nm) && matches_rotated(nm, spec, spec.suffix@) ==> exists|j: int|
                0 <= j < p && #[trigger] lst[j] == nm && (j < ii ==> j < ll),
        forall|nm: Seq<char>|
            #![trigger dir.has(nm)]
            dir.has(nm) && matches_rotated(nm, spec, seq!['g', 'z']) ==> (exists|j: int|
                p <= j < pg && #[trigger] lst[j] == nm && (j < ii ==> j < ll + cl)) || (exists|
            j: int|
                0 <= j < ii && ll <= j < ll + cl && !matches_rotated(
                    #[trigger] lst[j],
                    spec,
                    seq!['g', 'z'],
                ) && nm == gz_name_of(lst[j])),
    ensures
        forall|nm: Seq<char>|
            dir.has(nm) && matches_rotated(nm, spec, spec.suffix@) ==> exists|j: int|
                0 <= j < p && #[trigger] lst[j] == nm && (j < ii + 1 ==> j < ll),
        forall|nm: Seq<char>|
            #![trigger dir.has(nm)]
            dir.has(nm) && matches_rotated(nm, spec, seq!['g', 'z']) ==> (exists|j: int|
                p <= j < pg && #[trigger] lst[j] == nm && (j < ii + 1 ==> j < ll + cl)) || (exists|
            j: int|
                0 <= j < ii + 1 && ll <= j < ll + cl && !matches_rotated(
                    #[trigger] lst[j],
                    spec,
                    seq!['g', 'z'],
                ) && nm == gz_name_of(lst[j])),
{
    assert forall|nm: Seq<char>|
        dir.has(nm) && matches_rotated(nm, spec, spec.suffix@) implies exists|j: int|
        0 <= j < p && #[trigger] lst[j] == nm && (j < ii + 1 ==> j < ll) by {
        let j = choose|j: int| 0 <= j < p && lst[j] == nm && (j < ii ==> j < ll);
        if j == ii && in_gz_band {
            lemma_gz_name_matches(nm, spec, spec.suffix@);
        }
        assert(lst[j] == nm && (j < ii + 1 ==> j < ll));
    }
    assert forall|nm: Seq<char>|
        #![trigger dir.has(nm)]
        dir.has(nm) && matches_rotated(nm, spec, seq!['g', 'z']) implies (exists|j: int|
        p <= j < pg && #[trigger] lst[j] == nm && (j < ii + 1 ==> j < ll + cl)) || (exists|j: int|
        0 <= j < ii + 1 && ll <= j < ll + cl && !matches_rotated(
            #[trigger] lst[j],
            spec,
            seq!['g', 'z'],
        ) && nm == gz_name_of(lst[j])) by {
        if exists|j: int| p <= j < pg && lst[j] == nm && (j < ii ==> j < ll + cl) {
            let j = choose|j: int| p <= j < pg && lst[j] == nm && (j < ii ==> j < ll + cl);
            if j == ii {
                assert(j < ii + 1 ==> j < ll + cl);
            }
            assert(lst[j] == nm && (j < ii + 1 ==> j < ll + cl));
        } else {
            let j = choose|j: int|
                0 <= j < ii && ll <= j < ll + cl && !matches_rotated(
                    lst[j],
                    spec,
                    seq!['g', 'z'],
                ) && nm == gz_name_of(lst[j]);
            assert(0 <= j < ii + 1 && ll <= j < ll + cl && !matches_rotated(
                lst[j],
                spec,
                seq!['g', 'z'],
            ) && nm == gz_name_of(lst[j]));
        }
    }
}

} // verus!
