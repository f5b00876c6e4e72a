//! Enumeration of a sink's rotated sibling files in its directory: which
//! names count as rotated siblings, and their newest-first order.

use crate::directory::Directory;
use crate::filespec::FileSpec;
use crate::strutil::after_last_marker;
use crate::strutil::after_last_marker_exec;
use crate::strutil::ends_with;
use crate::strutil::is_dec_digit;
use crate::strutil::lex_less;
use crate::strutil::lex_less_exec;
use crate::strutil::parse_u32_or_zero;
use crate::strutil::parse_u32_or_zero_exec;
use crate::strutil::push_char;
use crate::strutil::spec_ends_with;
use crate::strutil::spec_starts_with;
use crate::strutil::starts_with;
use crate::strutil::stem_of;
use crate::strutil::stem_of_exec;
use vstd::multiset::Multiset;
use vstd::prelude::*;

verus! {

broadcast use crate::directory::lemma_has_names;

/// Everything before the digit in the pattern that rotated siblings match:
/// `{directory}/{basename}[_{discriminant}]_r`.
pub open spec fn rotated_prefix(spec: FileSpec) -> Seq<char> {
    spec.directory@ + seq!['/'] + spec.basename@ + (match spec.o_discriminant {
        Some(d) => seq!['_'] + d@,
        None => Seq::<char>::empty(),
    }) + seq!['_', 'r']
}

/// Whether `name` matches the sibling pattern
/// `{prefix}_r[0-9]*.{suffix}`: prefix, marker, a digit, any characters but
/// a path separator, a dot and the suffix.
pub open spec fn matches_rotated(name: Seq<char>, spec: FileSpec, suffix: Seq<char>) -> bool {
    let prefix = rotated_prefix(spec);
    &&& name.len() >= prefix.len() + 2 + suffix.len()
    &&& spec_starts_with(name, prefix)
    &&& is_dec_digit(name[prefix.len() as int])
    &&& spec_ends_with(name, seq!['.'] + suffix)
    &&& forall|i: int|
        prefix.len() <= i < name.len() - suffix.len() - 1 ==> #[trigger] name[i] != '/'
}

/// Whether `name` is a rotated sibling in uncompressed or compressed form:
/// it matches the pattern with the spec's own suffix, with `gz` or with
/// `zip`.
pub open spec fn matches_any_rotated(name: Seq<char>, spec: FileSpec) -> bool {
    ||| matches_rotated(name, spec, spec.suffix@)
    ||| matches_rotated(name, spec, seq!['g', 'z'])
    ||| matches_rotated(name, spec, seq!['z', 'i', 'p'])
}

/// The index a rotated name denotes: the digits after the last `_r` of its
/// stem, read as a number, zero when they are not a number.
pub open spec fn idx_of_name(name: Seq<char>) -> u32 {
    parse_u32_or_zero(after_last_marker(stem_of(name)))
}

/// The index a rotated name denotes.
pub fn idx_of_name_exec(name: &str) -> (r: u32)
    ensures
        r == idx_of_name(name@),
{
    let stem = stem_of_exec(name);
    let tail = after_last_marker_exec(stem.as_str());
    parse_u32_or_zero_exec(tail.as_str())
}

/// The sibling prefix `{directory}/{basename}[_{discriminant}]_r`.
pub fn rotated_prefix_exec(spec: &FileSpec) -> (r: String)
    ensures
        r@ == rotated_prefix(*spec),
{
    let mut r = spec.directory.clone();
    push_char(&mut r, '/');
    r.append(spec.basename.as_str());
    match &spec.o_discriminant {
        Some(d) => {
            push_char(&mut r, '_');
            r.append(d.as_str());
        },
        None => {},
    }
    push_char(&mut r, '_');
    push_char(&mut r, 'r');
    proof {
        assert(r@ =~= rotated_prefix(*spec));
    }
    r
}

/// Whether `name` matches the sibling pattern for the given suffix.
pub fn matches_rotated_exec(name: &str, spec: &FileSpec, suffix: &str) -> (r: bool)
    ensures
        r == matches_rotated(name@, *spec, suffix@),
{
    let prefix = rotated_prefix_exec(spec);
    let plen = prefix.as_str().unicode_len();
    let nlen = name.unicode_len();
    let slen = suffix.unicode_len();
    if nlen < 2 || nlen - 2 < plen || nlen - 2 - plen < slen {
        return false;
    }
    if !starts_with(name, prefix.as_str()) {
        return false;
    }
    let c = name.get_char(plen);
    if !('0' <= c && c <= '9') {
        return false;
    }
    let mut dotted = String::new();
    push_char(&mut dotted, '.');
    dotted.append(suffix);
    proof {
        assert(dotted@ =~= seq!['.'] + suffix@);
    }
    if !ends_with(name, dotted.as_str()) {
        return false;
    }
    let stop = nlen - slen - 1;
    let mut i: usize = plen;
    while i < stop
        invariant
            plen <= i <= stop,
            stop == name@.len() - suffix@.len() - 1,
            nlen == name@.len() && slen == suffix@.len() && plen == rotated_prefix(*spec).len(),
            forall|j: int| plen <= j < i ==> #[trigger] name@[j] != '/',
        decreases stop - i,
    {
        if name.get_char(i) == '/' {
            return false;
        }
        i = i + 1;
    }
    true
}

/// Whether `a` sorts at or after `b`, newest first: `b` does not come after
/// `a` in lexicographic order.
pub open spec fn lex_ge(a: Seq<char>, b: Seq<char>) -> bool {
    !lex_less(a, b)
}

/// Newest-first order: every element is at or after every later one.
pub open spec fn sorted_desc(s: Seq<Seq<char>>) -> bool {
    forall|i: int, j: int| 0 <= i < j < s.len() ==> lex_ge(#[trigger] s[i], #[trigger] s[j])
}

/// Lexicographic order is irreflexive.
pub proof fn lemma_lex_less_irrefl(a: Seq<char>)
    ensures
        !lex_less(a, a),
    decreases a.len(),
{
    if a.len() > 0 {
        lemma_lex_less_irrefl(a.skip(1));
    }
}

/// Lexicographic order is transitive.
pub proof fn lemma_lex_less_trans(a: Seq<char>, b: Seq<char>, c: Seq<char>)
    requires
        lex_less(a, b),
        lex_less(b, c),
    ensures
        lex_less(a, c),
    decreases a.len() + b.len() + c.len(),
{
    if b.len() == 0 {
        assert(false);
    } else if c.len() == 0 {
        assert(false);
    } else if a.len() == 0 {
    } else {
        if (a[0] as int) < (b[0] as int) {
            if (b[0] as int) <= (c[0] as int) {
            }
        } else {
            if (b[0] as int) < (c[0] as int) {
            } else {
                lemma_lex_less_trans(a.skip(1), b.skip(1), c.skip(1));
            }
        }
    }
}

/// Two strings not ordered either way are the same string.
pub proof fn lemma_lex_less_connected(a: Seq<char>, b: Seq<char>)
    requires
        !lex_less(a, b),
        !lex_less(b, a),
    ensures
        a == b,
    decreases a.len(),
{
    if a.len() == 0 {
        assert(b.len() == 0);
        assert(a =~= b);
    } else {
        assert(b.len() > 0);
        assert(a[0] == b[0]);
        lemma_lex_less_connected(a.skip(1), b.skip(1));
        assert(a =~= seq![a[0]] + a.skip(1));
        assert(b =~= seq![b[0]] + b.skip(1));
    }
}

/// A string strictly before another is not also at or after it.
pub proof fn lemma_lex_less_asym(a: Seq<char>, b: Seq<char>)
    requires
        lex_less(a, b),
    ensures
        !lex_less(b, a),
{
    if lex_less(b, a) {
        lemma_lex_less_trans(a, b, a);
        lemma_lex_less_irrefl(a);
    }
}

/// Being at or after is preserved down a chain.
pub proof fn lemma_lex_ge_trans(a: Seq<char>, b: Seq<char>, c: Seq<char>)
    requires
        lex_ge(a, b),
        lex_ge(b, c),
    ensures
        lex_ge(a, c),
{
    if lex_less(a, c) {
        if lex_less(c, b) {
            lemma_lex_less_trans(a, c, b);
        } else {
            lemma_lex_less_connected(b, c);
        }
    }
}

/// The names a vector of strings holds.
pub open spec fn views(s: Seq<String>) -> Seq<Seq<char>> {
    s.map_values(|x: String| x@)
}

/// Sorts names newest first.
pub fn sort_names_desc(v: Vec<String>) -> (r: Vec<String>)
    ensures
        r@.len() == v@.len(),
        sorted_desc(views(r@)),
        views(r@).to_multiset() == views(v@).to_multiset(),
{
    broadcast use vstd::seq_lib::group_to_multiset_ensures;

    let mut rest = v;
    let mut out: Vec<String> = Vec::new();
    let ghost orig = views(rest@);
    proof {
        assert(views(out@) =~= Seq::<Seq<char>>::empty());
        assert(views(out@).to_multiset().add(views(rest@).to_multiset()) =~= orig.to_multiset());
    }
    while rest.len() > 0
        invariant
            out@.len() + rest@.len() == orig.len(),
            views(out@).to_multiset().add(views(rest@).to_multiset()) == orig.to_multiset(),
            sorted_desc(views(out@)),
            forall|i: int, j: int|
                0 <= i < out@.len() && 0 <= j < rest@.len() ==> lex_ge(
                    #[trigger] views(out@)[i],
                    #[trigger] views(rest@)[j],
                ),
        decreases rest.len(),
    {
        let ghost rest0 = rest@;
        let ghost out0 = out@;
        let mut best: usize = 0;
        let mut i: usize = 1;
        proof {
            lemma_lex_less_irrefl(views(rest@)[0]);
        }
        while i < rest.len()
            invariant
                0 <= best < i <= rest.len(),
                rest.len() > 0,
                rest@ == rest0,
                forall|j: int|
                    0 <= j < i ==> lex_ge(views(rest@)[best as int], #[trigger] views(rest@)[j]),
            decreases rest.len() - i,
        {
            if lex_less_exec(rest[best].as_str(), rest[i].as_str()) {
                proof {
                    let m = views(rest@);
                    lemma_lex_less_asym(m[best as int], m[i as int]);
                    assert forall|j: int| 0 <= j < i + 1 implies lex_ge(
                        m[i as int],
                        #[trigger] m[j],
                    ) by {
                        if j < i {
                            lemma_lex_ge_trans(m[i as int], m[best as int], m[j]);
                        } else {
                            lemma_lex_less_irrefl(m[i as int]);
                        }
                    }
                }
                best = i;
            } else {
                proof {
                    lemma_lex_less_irrefl(views(rest@)[i as int]);
                }
            }
            i = i + 1;
        }
        let ghost m0 = views(rest@);
        let picked = rest.swap_remove(best);
        proof {
            broadcast use vstd::multiset::group_multiset_axioms;
            broadcast use vstd::seq_lib::group_to_multiset_ensures;

            // the names that remain after taking out the best one
            let m1 = views(rest@);
            let upd = m0.update(best as int, m0.last());
            assert(m1 =~= upd.drop_last());
            assert(upd.drop_last() =~= upd.remove(upd.len() - 1));
            assert(upd.to_multiset() == m0.to_multiset().insert(m0.last()).remove(
                m0[best as int],
            ));
            assert(upd[upd.len() - 1] == m0.last());
            assert(upd.remove(upd.len() - 1).to_multiset() == upd.to_multiset().remove(
                upd[upd.len() - 1],
            ));
            assert(m1.to_multiset() == upd.to_multiset().remove(m0.last()));
            assert(m1.to_multiset() =~= m0.to_multiset().remove(m0[best as int]));
            // each remaining name is one of the old ones
            assert forall|j: int| 0 <= j < m1.len() implies exists|k: int|
                0 <= k < m0.len() && m0[k] == #[trigger] m1[j] by {
                if j == best {
                    assert(m0[m0.len() - 1] == m1[j]);
                } else {
                    assert(m0[j] == m1[j]);
                }
            }
        }
        out.push(picked);
        proof {
            let m1 = views(rest@);
            let o1 = views(out@);
            assert(o1 =~= views(out0).push(picked@));
            assert(picked@ == m0[best as int]);
            assert(o1.to_multiset() == views(out0).to_multiset().insert(picked@));
            assert(o1.to_multiset().add(m1.to_multiset()) =~= orig.to_multiset());
            // the new last element keeps the output newest first
            assert forall|a: int, b: int| 0 <= a < b < o1.len() implies lex_ge(
                #[trigger] o1[a],
                #[trigger] o1[b],
            ) by {
                if b < o1.len() - 1 {
                    assert(o1[a] == views(out0)[a] && o1[b] == views(out0)[b]);
                } else {
                    assert(o1[b] == picked@);
                    assert(views(rest0)[best as int] == picked@);
                    assert(lex_ge(views(out0)[a], views(rest0)[best as int]));
                }
            }
            // the output still dominates what is left
            assert forall|a: int, j: int|
                0 <= a < out@.len() && 0 <= j < rest@.len() implies lex_ge(
                #[trigger] o1[a],
                #[trigger] m1[j],
            ) by {
                let k = choose|k: int| 0 <= k < m0.len() && m0[k] == m1[j];
                assert(lex_ge(m0[best as int], m0[k]));
                if a < o1.len() - 1 {
                    assert(lex_ge(views(out0)[a], m0[k]));
                } else {
                    assert(o1[a] == picked@ && picked@ == m0[best as int]);
                }
            }
        }
    }
    proof {
        assert(views(rest@).to_multiset() =~= Multiset::<Seq<char>>::empty());
        assert(views(out@).to_multiset() =~= orig.to_multiset());
    }
    out
}

/// The active file, with its `_rCURRENT` infix, never matches the rotated
/// sibling pattern: the character after the marker is no digit.  Retention
/// therefore never touches it.
pub proof fn lemma_current_not_rotated(fs: FileSpec, suffix: Seq<char>)
    ensures
        !matches_rotated(fs.spec_path(Some(crate::filespec::current_infix())), fs, suffix),
{
    let path = fs.spec_path(Some(crate::filespec::current_infix()));
    let prefix = rotated_prefix(fs);
    let head = fs.directory@ + seq!['/'] + fs.basename@ + (match fs.o_discriminant {
        Some(d) => seq!['_'] + d@,
        None => Seq::<char>::empty(),
    });
    if matches_rotated(path, fs, suffix) {
        assert(path[prefix.len() as int] == crate::filespec::current_infix()[2]);
        assert(is_dec_digit('C'));
    }
}

/// The names in `dir` that match the sibling pattern for `suffix`, newest
/// first, each exactly once.
pub fn matching_files_sorted(dir: &Directory, spec: &FileSpec, suffix: &str) -> (r: Vec<String>)
    requires
        dir.wf(),
    ensures
        forall|i: int|
            0 <= i < r@.len() ==> dir.has(#[trigger] views(r@)[i]) && matches_rotated(
                views(r@)[i],
                *spec,
                suffix@,
            ),
        forall|n: Seq<char>|
            dir.has(n) && matches_rotated(n, *spec, suffix@) ==> views(r@).contains(n),
        sorted_desc(views(r@)),
        views(r@).no_duplicates(),
{
    broadcast use vstd::seq_lib::group_to_multiset_ensures;

    let names = dir.file_names();
    let ghost all = views(names@);
    let n = names.len();
    let mut acc: Vec<String> = Vec::new();
    let mut i: usize = 0;
    while i < n
        invariant
            0 <= i <= n,
            n == names@.len(),
            dir.wf(),
            all == views(names@),
            all.len() == dir.names().len(),
            forall|j: int| 0 <= j < all.len() ==> #[trigger] all[j] == dir.names()[j],
            forall|k: int|
                0 <= k < acc@.len() ==> dir.has(#[trigger] views(acc@)[k]) && matches_rotated(
                    views(acc@)[k],
                    *spec,
                    suffix@,
                ),
            forall|j: int|
                0 <= j < i && matches_rotated(#[trigger] all[j], *spec, suffix@) ==> views(
                    acc@,
                ).contains(all[j]),
            views(acc@).no_duplicates(),
            forall|k: int|
                0 <= k < acc@.len() ==> #[trigger] all.take(i as int).contains(views(acc@)[k]),
        decreases n - i,
    {
        if matches_rotated_exec(names[i].as_str(), spec, suffix) {
            let ghost acc0 = acc@;
            acc.push(names[i].clone());
            proof {
                assert(views(acc@) =~= views(acc0).push(all[i as int]));
                assert(dir.names().contains(dir.names()[i as int]));
                // a name sits at one entry only, so it was not collected yet
                assert forall|k: int| 0 <= k < views(acc0).len() implies #[trigger] views(acc0)[k]
                    != all[i as int] by {
                    assert(all.take(i as int).contains(views(acc0)[k]));
                    let j = choose|j: int|
                        0 <= j < i && all.take(i as int)[j] == views(acc0)[k];
                    assert(all[j] == views(acc0)[k]);
                    assert(dir.names()[j] == all[j]);
                }
                assert forall|k1: int, k2: int|
                    0 <= k1 < k2 < views(acc@).len() implies views(acc@)[k1] != views(
                    acc@,
                )[k2] by {
                    if k2 < views(acc@).len() - 1 {
                        assert(views(acc@)[k1] == views(acc0)[k1]);
                        assert(views(acc@)[k2] == views(acc0)[k2]);
                    } else {
                        assert(views(acc@)[k1] == views(acc0)[k1]);
                        assert(views(acc@)[k2] == all[i as int]);
                    }
                }
                assert(views(acc@).no_duplicates());
                assert(views(acc@)[views(acc@).len() - 1] == all[i as int]);
                assert forall|k: int| 0 <= k < acc@.len() implies #[trigger] all.take(
                    i + 1,
                ).contains(views(acc@)[k]) by {
                    if k < acc@.len() - 1 {
                        assert(all.take(i as int).contains(views(acc0)[k]));
                        let j = choose|j: int|
                            0 <= j < i && all.take(i as int)[j] == views(acc0)[k];
                        assert(all.take(i + 1)[j] == views(acc@)[k]);
                    } else {
                        assert(all.take(i + 1)[i as int] == views(acc@)[k]);
                    }
                }
                assert forall|j: int|
                    0 <= j < i + 1 && matches_rotated(
                        #[trigger] all[j],
                        *spec,
                        suffix@,
                    ) implies views(acc@).contains(all[j]) by {
                    if j < i {
                        let k = choose|k: int| 0 <= k < views(acc0).len() && views(acc0)[k]
                            == all[j];
                        assert(views(acc@)[k] == all[j]);
                    } else {
                        assert(views(acc@)[views(acc@).len() - 1] == all[j]);
                    }
                }
            }
        } else {
            proof {
                assert forall|k: int| 0 <= k < acc@.len() implies #[trigger] all.take(
                    i + 1,
                ).contains(views(acc@)[k]) by {
                    assert(all.take(i as int).contains(views(acc@)[k]));
                    let j = choose|j: int| 0 <= j < i && all.take(i as int)[j] == views(acc@)[k];
                    assert(all.take(i + 1)[j] == views(acc@)[k]);
                }
            }
        }
        i = i + 1;
    }
    proof {
        assert forall|nm: Seq<char>|
            dir.has(nm) && matches_rotated(nm, *spec, suffix@) implies views(acc@).contains(nm) by {
            let j = choose|j: int| 0 <= j < dir.names().len() && dir.names()[j] == nm;
            assert(all[j] == nm);
        }
        views(acc@).lemma_multiset_has_no_duplicates();
    }
    let ghost accv = views(acc@);
    let r = sort_names_desc(acc);
    proof {
        assert forall|k: int| 0 <= k < r@.len() implies dir.has(#[trigger] views(r@)[k])
            && matches_rotated(views(r@)[k], *spec, suffix@) by {
            assert(views(r@).to_multiset().contains(views(r@)[k]));
            assert(accv.contains(views(r@)[k]));
        }
        assert forall|nm: Seq<char>| accv.contains(nm) implies views(r@).contains(nm) by {
            assert(accv.to_multiset().count(nm) > 0);
        }
        views(r@).lemma_multiset_has_no_duplicates_conv();
    }
    r
}

/// All rotated siblings of the sink, uncompressed ones first, then the
/// compressed forms, each group newest first.
pub fn list_of_log_and_compressed_files(dir: &Directory, spec: &FileSpec) -> (r: Vec<String>)
    requires
        dir.wf(),
    ensures
        forall|i: int|
            0 <= i < r@.len() ==> dir.has(#[trigger] views(r@)[i]) && matches_any_rotated(
                views(r@)[i],
                *spec,
            ),
        forall|n: Seq<char>|
            dir.has(n) && matches_any_rotated(n, *spec) ==> views(r@).contains(n),
        crate::cleanup::suffix_fit_for_retention(spec.suffix@) ==> (forall|i: int, j: int|
            0 <= i < j < r@.len() && matches_rotated(#[trigger] views(r@)[i], *spec, spec.suffix@)
                && matches_rotated(#[trigger] views(r@)[j], *spec, spec.suffix@) ==> lex_ge(
                views(r@)[i],
                views(r@)[j],
            )),
        crate::cleanup::suffix_fit_for_retention(spec.suffix@) ==> (forall|i: int, j: int|
            0 <= i < j < r@.len() && matches_rotated(
                #[trigger] views(r@)[i],
                *spec,
                seq!['g', 'z'],
            ) ==> !matches_rotated(#[trigger] views(r@)[j], *spec, spec.suffix@)),
{
    proof {
        reveal_strlit("gz");
        reveal_strlit("zip");
        assert("gz"@ =~= seq!['g', 'z']);
        assert("zip"@ =~= seq!['z', 'i', 'p']);
    }
    let mut r = matching_files_sorted(dir, spec, spec.suffix.as_str());
    let mut gz = matching_files_sorted(dir, spec, "gz");
    let mut zip = matching_files_sorted(dir, spec, "zip");
    let ghost logs0 = views(r@);
    let ghost gz0 = views(gz@);
    let ghost zip0 = views(zip@);
    r.append(&mut gz);
    proof {
        assert(views(r@) =~= logs0 + gz0);
    }
    r.append(&mut zip);
    proof {
        assert(views(r@) =~= logs0 + gz0 + zip0);
        assert forall|n: Seq<char>|
            dir.has(n) && matches_any_rotated(n, *spec) implies views(r@).contains(n) by {
            if matches_rotated(n, *spec, spec.suffix@) {
                let j = choose|j: int| 0 <= j < logs0.len() && logs0[j] == n;
                assert(views(r@)[j] == n);
            } else if matches_rotated(n, *spec, seq!['g', 'z']) {
                let j = choose|j: int| 0 <= j < gz0.len() && gz0[j] == n;
                assert(views(r@)[logs0.len() + j] == n);
            } else {
                let j = choose|j: int| 0 <= j < zip0.len() && zip0[j] == n;
                assert(views(r@)[logs0.len() + gz0.len() + j] == n);
            }
        }
        if crate::cleanup::suffix_fit_for_retention(spec.suffix@) {
            let l = logs0.len() as int;
            let g = gz0.len() as int;
            let v = views(r@);
            assert forall|i: int, j: int|
                0 <= i < j < v.len() && matches_rotated(#[trigger] v[i], *spec, spec.suffix@)
                    && matches_rotated(#[trigger] v[j], *spec, spec.suffix@) implies lex_ge(
                v[i],
                v[j],
            ) by {
                if i >= l {
                    if i < l + g {
                        assert(v[i] == gz0[i - l]);
                        crate::cleanup::lemma_suffix_match_exclusive(
                            v[i],
                            *spec,
                            spec.suffix@,
                            seq!['g', 'z'],
                        );
                    } else {
                        assert(v[i] == zip0[i - l - g]);
                        crate::cleanup::lemma_suffix_match_exclusive(
                            v[i],
                            *spec,
                            spec.suffix@,
                            seq!['z', 'i', 'p'],
                        );
                    }
                }
                if j >= l {
                    if j < l + g {
                        assert(v[j] == gz0[j - l]);
                        crate::cleanup::lemma_suffix_match_exclusive(
                            v[j],
                            *spec,
                            spec.suffix@,
                            seq!['g', 'z'],
                        );
                    } else {
                        assert(v[j] == zip0[j - l - g]);
                        crate::cleanup::lemma_suffix_match_exclusive(
                            v[j],
                            *spec,
                            spec.suffix@,
                            seq!['z', 'i', 'p'],
                        );
                    }
                }
                assert(v[i] == logs0[i] && v[j] == logs0[j]);
                assert(lex_ge(logs0[i], logs0[j]));
            }
            assert forall|i: int, j: int|
                0 <= i < j < v.len() && matches_rotated(
                    #[trigger] v[i],
                    *spec,
                    seq!['g', 'z'],
                ) implies !matches_rotated(#[trigger] v[j], *spec, spec.suffix@) by {
                if i < l {
                    assert(v[i] == logs0[i]);
                    crate::cleanup::lemma_suffix_match_exclusive(
                        v[i],
                        *spec,
                        spec.suffix@,
                        seq!['g', 'z'],
                    );
                }
                assert(i >= l);
                if matches_rotated(v[j], *spec, spec.suffix@) {
                    if j < l + g {
                        assert(v[j] == gz0[j - l]);
                        crate::cleanup::lemma_suffix_match_exclusive(
                            v[j],
                            *spec,
                            spec.suffix@,
                            seq!['g', 'z'],
                        );
                    } else {
                        assert(v[j] == zip0[j - l - g]);
                        crate::cleanup::lemma_suffix_match_exclusive(
                            v[j],
                            *spec,
                            spec.suffix@,
                            seq!['z', 'i', 'p'],
                        );
                    }
                }
            }
        }
    }
    r
}

} // verus!
