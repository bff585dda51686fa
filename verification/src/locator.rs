//! Command location: a `which`-style lookup.
//!
//! Given a command name, the locator builds the candidate file paths to test:
//! for each directory of the effective search path, in order, the name alone
//! and the name with each recognized executable suffix.  The host probes the
//! file system for existence and executability and reports one flag per
//! candidate; [`first_match`] then picks the first present candidate, or
//! reports that the command was not found.

use vstd::prelude::*;

use crate::bytes::{append_bytes, copy_bytes};

verus! {

/// The byte separating path components.  The platform process-creation and
/// file-probing primitives on every supported target accept it.
pub const COMPONENT_SEPARATOR: u8 = 47;

/// The candidate file path for a command `name` with one executable `suffix`
/// under the directory `dir`.
pub open spec fn candidate(dir: Seq<u8>, name: Seq<u8>, suffix: Seq<u8>) -> Seq<u8> {
    dir + seq![COMPONENT_SEPARATOR] + name + suffix
}

/// The candidates for one directory: the bare name first, then the name with
/// each recognized suffix, in suffix order.
pub open spec fn dir_candidates(dir: Seq<u8>, name: Seq<u8>, suffixes: Seq<Seq<u8>>) -> Seq<
    Seq<u8>,
>
    decreases suffixes.len(),
{
    if suffixes.len() == 0 {
        seq![candidate(dir, name, Seq::<u8>::empty())]
    } else {
        dir_candidates(dir, name, suffixes.drop_last()).push(
            candidate(dir, name, suffixes.last()),
        )
    }
}

/// All candidates for a command, in search order: directories in search-path
/// order, and within one directory the bare name first, then each suffix.
pub open spec fn all_candidates(dirs: Seq<Seq<u8>>, name: Seq<u8>, suffixes: Seq<Seq<u8>>) -> Seq<
    Seq<u8>,
>
    decreases dirs.len(),
{
    if dirs.len() == 0 {
        Seq::empty()
    } else {
        all_candidates(dirs.drop_last(), name, suffixes) + dir_candidates(
            dirs.last(),
            name,
            suffixes,
        )
    }
}

/// The final path component of a file path: everything after the last
/// component separator.
pub open spec fn basename(p: Seq<u8>) -> Seq<u8>
    decreases p.len(),
{
    if p.len() == 0 {
        Seq::empty()
    } else if p.last() == COMPONENT_SEPARATOR {
        Seq::empty()
    } else {
        basename(p.drop_last()).push(p.last())
    }
}

/// Whether `b` is the queried name, alone or with one recognized suffix.
pub open spec fn matches_query(b: Seq<u8>, name: Seq<u8>, suffixes: Seq<Seq<u8>>) -> bool {
    b == name || exists|j: int| 0 <= j < suffixes.len() && b == name + #[trigger] suffixes[j]
}

/// The basename of everything after a component separator is that tail
/// itself, when the tail holds no separator of its own.
proof fn lemma_basename_after_separator(s: Seq<u8>, t: Seq<u8>)
    requires
        !t.contains(COMPONENT_SEPARATOR),
    ensures
        basename(s + seq![COMPONENT_SEPARATOR] + t) == t,
    decreases t.len(),
{
    let u = s + seq![COMPONENT_SEPARATOR] + t;
    if t.len() == 0 {
        assert(u =~= s.push(COMPONENT_SEPARATOR));
        assert(basename(u) =~= t);
    } else {
        assert(t[t.len() - 1] != COMPONENT_SEPARATOR) by {
            if t.last() == COMPONENT_SEPARATOR {
                assert(t.contains(COMPONENT_SEPARATOR));
            }
        }
        assert(!t.drop_last().contains(COMPONENT_SEPARATOR)) by {
            if t.drop_last().contains(COMPONENT_SEPARATOR) {
                let j = choose|j: int|
                    0 <= j < t.drop_last().len() && t.drop_last()[j] == COMPONENT_SEPARATOR;
                assert(t[j] == COMPONENT_SEPARATOR);
            }
        }
        lemma_basename_after_separator(s, t.drop_last());
        assert(u.drop_last() =~= s + seq![COMPONENT_SEPARATOR] + t.drop_last());
        assert(u.last() == t.last());
        assert(basename(u) == t.drop_last().push(t.last()));
        assert(t.drop_last().push(t.last()) =~= t);
    }
}

/// Law: a candidate's basename is the queried name plus the suffix it was
/// built with, whenever neither holds a component separator.
pub proof fn lemma_candidate_basename(dir: Seq<u8>, name: Seq<u8>, suffix: Seq<u8>)
    requires
        !name.contains(COMPONENT_SEPARATOR),
        !suffix.contains(COMPONENT_SEPARATOR),
    ensures
        basename(candidate(dir, name, suffix)) == name + suffix,
{
    let tail = name + suffix;
    assert(!tail.contains(COMPONENT_SEPARATOR)) by {
        if tail.contains(COMPONENT_SEPARATOR) {
            let j = choose|j: int| 0 <= j < tail.len() && tail[j] == COMPONENT_SEPARATOR;
            if j < name.len() {
                assert(name[j] == COMPONENT_SEPARATOR);
            } else {
                assert(suffix[j - name.len()] == COMPONENT_SEPARATOR);
            }
        }
    }
    assert(candidate(dir, name, suffix) =~= dir + seq![COMPONENT_SEPARATOR] + tail);
    lemma_basename_after_separator(dir, tail);
}

/// The candidates of one directory all answer to the queried name.
proof fn lemma_dir_candidates_basename(dir: Seq<u8>, name: Seq<u8>, suffixes: Seq<Seq<u8>>)
    requires
        !name.contains(COMPONENT_SEPARATOR),
        forall|j: int|
            0 <= j < suffixes.len() ==> !(#[trigger] suffixes[j]).contains(COMPONENT_SEPARATOR),
    ensures
        forall|k: int|
            0 <= k < dir_candidates(dir, name, suffixes).len() ==> matches_query(
                basename(#[trigger] dir_candidates(dir, name, suffixes)[k]),
                name,
                suffixes,
            ),
    decreases suffixes.len(),
{
    if suffixes.len() == 0 {
        lemma_candidate_basename(dir, name, Seq::<u8>::empty());
        assert(name + Seq::<u8>::empty() =~= name);
    } else {
        let dl = suffixes.drop_last();
        lemma_dir_candidates_basename(dir, name, dl);
        lemma_candidate_basename(dir, name, suffixes.last());
        let cs = dir_candidates(dir, name, suffixes);
        assert forall|k: int| 0 <= k < cs.len() implies matches_query(
            basename(#[trigger] cs[k]),
            name,
            suffixes,
        ) by {
            let prev = dir_candidates(dir, name, dl);
            if k < prev.len() {
                assert(cs[k] == prev[k]);
                assert(matches_query(basename(prev[k]), name, dl));
                if basename(prev[k]) != name {
                    let j = choose|j: int|
                        0 <= j < dl.len() && basename(prev[k]) == name + #[trigger] dl[j];
                    assert(suffixes[j] == dl[j]);
                    assert(basename(cs[k]) == name + suffixes[j]);
                }
            } else {
                assert(cs[k] == candidate(dir, name, suffixes.last()));
                let j = suffixes.len() - 1;
                assert(basename(cs[k]) == name + suffixes[j]);
            }
        }
    }
}

/// Law: every candidate the locator tests answers to the queried name: its
/// basename is the name alone or the name with one recognized suffix.  So a
/// located command, which is always one of the candidates, matches the query
/// modulo a platform suffix.
pub proof fn lemma_all_candidates_basename(dirs: Seq<Seq<u8>>, name: Seq<u8>, suffixes: Seq<Seq<u8>>)
    requires
        !name.contains(COMPONENT_SEPARATOR),
        forall|j: int|
            0 <= j < suffixes.len() ==> !(#[trigger] suffixes[j]).contains(COMPONENT_SEPARATOR),
    ensures
        forall|k: int|
            0 <= k < all_candidates(dirs, name, suffixes).len() ==> matches_query(
                basename(#[trigger] all_candidates(dirs, name, suffixes)[k]),
                name,
                suffixes,
            ),
    decreases dirs.len(),
{
    if dirs.len() == 0 {
    } else {
        let dl = dirs.drop_last();
        lemma_all_candidates_basename(dl, name, suffixes);
        lemma_dir_candidates_basename(dirs.last(), name, suffixes);
        let cs = all_candidates(dirs, name, suffixes);
        let prev = all_candidates(dl, name, suffixes);
        let d = dir_candidates(dirs.last(), name, suffixes);
        assert forall|k: int| 0 <= k < cs.len() implies matches_query(
            basename(#[trigger] cs[k]),
            name,
            suffixes,
        ) by {
            if k < prev.len() {
                assert(cs[k] == prev[k]);
            } else {
                assert(cs[k] == d[k - prev.len()]);
            }
        }
    }
}

/// Build one candidate path: `dir`, a component separator, the name, and the
/// suffix when one is given.
fn build_candidate(dir: &Vec<u8>, name: &Vec<u8>, suffix: Option<&Vec<u8>>) -> (r: Vec<u8>)
    ensures
        r@ == candidate(
            dir@,
            name@,
            match suffix {
                Some(s) => s@,
                None => Seq::<u8>::empty(),
            },
        ),
{
    let mut r = copy_bytes(dir);
    r.push(COMPONENT_SEPARATOR);
    append_bytes(&mut r, name);
    match suffix {
        Some(s) => {
            append_bytes(&mut r, s);
            proof {
                assert(r@ =~= candidate(dir@, name@, s@));
            }
        },
        None => {
            proof {
                assert(r@ =~= candidate(dir@, name@, Seq::<u8>::empty()));
            }
        },
    }
    r
}

/// All candidate paths for `name`, in the order the lookup must test them:
/// directories in search-path order; within a directory the bare name first,
/// then the name with each recognized suffix, in suffix order.
pub fn candidate_paths(dirs: &Vec<Vec<u8>>, name: &Vec<u8>, suffixes: &Vec<Vec<u8>>) -> (r: Vec<
    Vec<u8>,
>)
    ensures
        crate::path_resolver::entry_views(r@) == all_candidates(
            crate::path_resolver::entry_views(dirs@),
            name@,
            crate::path_resolver::entry_views(suffixes@),
        ),
{
    let ghost dir_views = crate::path_resolver::entry_views(dirs@);
    let ghost suffix_views = crate::path_resolver::entry_views(suffixes@);
    let mut out: Vec<Vec<u8>> = Vec::new();
    let n = dirs.len();
    let mut i: usize = 0;
    proof {
        assert(dirs@.subrange(0, 0) =~= Seq::<Vec<u8>>::empty());
        assert(crate::path_resolver::entry_views(out@) =~= all_candidates(
            crate::path_resolver::entry_views(dirs@.subrange(0, 0)),
            name@,
            suffix_views,
        ));
    }
    while i < n
        invariant
            0 <= i <= n,
            n == dirs@.len(),
            dir_views == crate::path_resolver::entry_views(dirs@),
            suffix_views == crate::path_resolver::entry_views(suffixes@),
            crate::path_resolver::entry_views(out@) == all_candidates(
                crate::path_resolver::entry_views(dirs@.subrange(0, i as int)),
                name@,
                suffix_views,
            ),
        decreases n - i,
    {
        let ghost dir_prefix = crate::path_resolver::entry_views(dirs@.subrange(0, i as int));
        let ghost dir_prefix1 = crate::path_resolver::entry_views(
            dirs@.subrange(0, (i + 1) as int),
        );
        proof {
            assert(dir_prefix1.drop_last() =~= dir_prefix);
            assert(dir_prefix1.last() == dirs@[i as int]@);
        }
        let ghost out_pre = out@;
        out.push(build_candidate(&dirs[i], name, None));
        proof {
            assert(crate::path_resolver::entry_views(out@) =~= crate::path_resolver::entry_views(
                out_pre,
            ).push(candidate(dirs@[i as int]@, name@, Seq::<u8>::empty())));
            assert(suffixes@.subrange(0, 0) =~= Seq::<Vec<u8>>::empty());
            assert(crate::path_resolver::entry_views(out@) =~= all_candidates(dir_prefix, name@, suffix_views)
                + dir_candidates(
                dirs@[i as int]@,
                name@,
                crate::path_resolver::entry_views(suffixes@.subrange(0, 0)),
            ));
        }
        let m = suffixes.len();
        let mut j: usize = 0;
        while j < m
            invariant
                0 <= j <= m,
                m == suffixes@.len(),
                i < n,
                n == dirs@.len(),
                suffix_views == crate::path_resolver::entry_views(suffixes@),
                dir_prefix == crate::path_resolver::entry_views(dirs@.subrange(0, i as int)),
                crate::path_resolver::entry_views(out@) == all_candidates(
                    dir_prefix,
                    name@,
                    suffix_views,
                ) + dir_candidates(
                    dirs@[i as int]@,
                    name@,
                    crate::path_resolver::entry_views(suffixes@.subrange(0, j as int)),
                ),
            decreases m - j,
        {
            let ghost suf_prefix = crate::path_resolver::entry_views(
                suffixes@.subrange(0, j as int),
            );
            let ghost suf_prefix1 = crate::path_resolver::entry_views(
                suffixes@.subrange(0, (j + 1) as int),
            );
            proof {
                assert(suf_prefix1.drop_last() =~= suf_prefix);
                assert(suf_prefix1.last() == suffixes@[j as int]@);
            }
            let ghost out_pre2 = out@;
            out.push(build_candidate(&dirs[i], name, Some(&suffixes[j])));
            proof {
                assert(crate::path_resolver::entry_views(out@)
                    =~= crate::path_resolver::entry_views(out_pre2).push(
                    candidate(dirs@[i as int]@, name@, suffixes@[j as int]@),
                ));
                assert(dir_candidates(dirs@[i as int]@, name@, suf_prefix1) == dir_candidates(
                    dirs@[i as int]@,
                    name@,
                    suf_prefix,
                ).push(candidate(dirs@[i as int]@, name@, suffixes@[j as int]@)));
                assert(crate::path_resolver::entry_views(out@) =~= all_candidates(
                    dir_prefix,
                    name@,
                    suffix_views,
                ) + dir_candidates(dirs@[i as int]@, name@, suf_prefix1));
            }
            j = j + 1;
        }
        proof {
            assert(suffixes@.subrange(0, m as int) =~= suffixes@);
            assert(all_candidates(dir_prefix1, name@, suffix_views) == all_candidates(
                dir_prefix,
                name@,
                suffix_views,
            ) + dir_candidates(dirs@[i as int]@, name@, suffix_views));
        }
        i = i + 1;
    }
    proof {
        assert(dirs@.subrange(0, n as int) =~= dirs@);
    }
    out
}

/// The first present candidate, in test order: the host probes each candidate
/// path and reports one flag per candidate; the lookup returns the index of
/// the first present one, or reports that the command was not found.
pub fn first_match(candidates: &Vec<Vec<u8>>, present: &Vec<bool>) -> (r: Option<usize>)
    requires
        candidates@.len() == present@.len(),
    ensures
        match r {
            Some(i) => {
                &&& i < candidates@.len()
                &&& present@[i as int]
                &&& forall|j: int| 0 <= j < i ==> !present@[j]
            },
            None => forall|j: int| 0 <= j < present@.len() ==> !present@[j],
        },
{
    let n = present.len();
    let mut i: usize = 0;
    while i < n
        invariant
            0 <= i <= n,
            n == present@.len(),
            candidates@.len() == present@.len(),
            forall|j: int| 0 <= j < i ==> !present@[j],
        decreases n - i,
    {
        if present[i] {
            return Some(i);
        }
        i = i + 1;
    }
    None
}

} // verus!
