//! `PATH` normalization.
//!
//! A search-path value is a single byte string whose entries are separated by
//! a platform separator.  GUI-launched processes on some platforms inherit an
//! impoverished `PATH`; the resolver merges the inherited value with the value
//! probed from the user's login shell and a fixed list of well-known binary
//! directories, removing duplicates while preserving first occurrence.  The
//! host reads the environment and runs the shell probe (with a bounded
//! timeout, falling back to no probe on failure); this module does the
//! merging, exactly.

use vstd::prelude::*;

use vstd::string::StrSliceExecFns;

use crate::bytes::{append_bytes, bytes_eq, copy_bytes};

verus! {

/// The byte separating search-path entries on Unix-like platforms.
pub const UNIX_PATH_SEPARATOR: u8 = 58;

/// The byte separating search-path entries on Windows.
pub const WINDOWS_PATH_SEPARATOR: u8 = 59;

/// The views of a sequence of byte vectors.
pub open spec fn entry_views(entries: Seq<Vec<u8>>) -> Seq<Seq<u8>> {
    entries.map_values(|e: Vec<u8>| e@)
}

/// The entries of a search-path value: the runs of bytes between separators.
/// A value always holds at least one entry; an empty value holds one empty
/// entry.
pub open spec fn split_at_sep(s: Seq<u8>, sep: u8) -> Seq<Seq<u8>>
    decreases s.len(),
{
    if s.len() == 0 {
        seq![Seq::<u8>::empty()]
    } else {
        let r = split_at_sep(s.drop_last(), sep);
        if s.last() == sep {
            r.push(Seq::<u8>::empty())
        } else {
            r.update(r.len() - 1, r.last().push(s.last()))
        }
    }
}

/// The search-path value holding the given entries in order.
pub open spec fn joined(entries: Seq<Seq<u8>>, sep: u8) -> Seq<u8>
    decreases entries.len(),
{
    if entries.len() == 0 {
        Seq::empty()
    } else if entries.len() == 1 {
        entries[0]
    } else {
        joined(entries.drop_last(), sep) + seq![sep] + entries.last()
    }
}

/// The entries with every duplicate removed, keeping the first occurrence
/// and its position.
pub open spec fn dedup_first(entries: Seq<Seq<u8>>) -> Seq<Seq<u8>>
    decreases entries.len(),
{
    if entries.len() == 0 {
        Seq::empty()
    } else {
        let rest = dedup_first(entries.drop_last());
        if entries.drop_last().contains(entries.last()) {
            rest
        } else {
            rest.push(entries.last())
        }
    }
}

/// The entries contributed by the login-shell probe, when it succeeded.
pub open spec fn shell_entries(shell: Option<Seq<u8>>, sep: u8) -> Seq<Seq<u8>> {
    match shell {
        Some(s) => split_at_sep(s, sep),
        None => Seq::empty(),
    }
}

/// The corrected search path as a sequence of entries: the inherited value's
/// entries first, then the shell probe's, then the well-known directories,
/// duplicates removed keeping first occurrence.
pub open spec fn merged_entries(
    current: Seq<u8>,
    shell: Option<Seq<u8>>,
    extra: Seq<Seq<u8>>,
    sep: u8,
) -> Seq<Seq<u8>> {
    dedup_first(split_at_sep(current, sep) + shell_entries(shell, sep) + extra)
}

/// The bytes of an ASCII character sequence, one byte per character.
pub open spec fn ascii_bytes(s: Seq<char>) -> Seq<u8> {
    Seq::new(s.len(), |i: int| s[i] as u8)
}

/// The well-known binary directories, in merge order.
pub open spec fn well_known_dir_list() -> Seq<Seq<u8>> {
    seq![
        ascii_bytes("/usr/local/bin"@),
        ascii_bytes("/usr/local/sbin"@),
        ascii_bytes("/usr/bin"@),
        ascii_bytes("/usr/sbin"@),
        ascii_bytes("/bin"@),
        ascii_bytes("/sbin"@),
        ascii_bytes("/opt/homebrew/bin"@),
        ascii_bytes("/opt/homebrew/sbin"@),
    ]
}

/// The view of an optional byte vector.
pub open spec fn opt_bytes_view(o: Option<Vec<u8>>) -> Option<Seq<u8>> {
    match o {
        Some(v) => Some(v@),
        None => None,
    }
}

/// A split value always holds at least one entry.
pub proof fn lemma_split_len(s: Seq<u8>, sep: u8)
    ensures
        split_at_sep(s, sep).len() >= 1,
    decreases s.len(),
{
    if s.len() != 0 {
        lemma_split_len(s.drop_last(), sep);
    }
}

/// No entry of a split value contains the separator.
pub proof fn lemma_split_entries_sep_free(s: Seq<u8>, sep: u8)
    ensures
        forall|i: int|
            0 <= i < split_at_sep(s, sep).len() ==> !(#[trigger] split_at_sep(s, sep)[i]).contains(
                sep,
            ),
    decreases s.len(),
{
    if s.len() == 0 {
        assert forall|i: int|
            0 <= i < split_at_sep(s, sep).len() implies !(#[trigger] split_at_sep(s, sep)[i]).contains(
            sep,
        ) by {
            assert(split_at_sep(s, sep)[i] =~= Seq::<u8>::empty());
        }
    } else {
        lemma_split_entries_sep_free(s.drop_last(), sep);
        lemma_split_len(s.drop_last(), sep);
        let r = split_at_sep(s.drop_last(), sep);
        if s.last() == sep {
            assert forall|i: int|
                0 <= i < split_at_sep(s, sep).len() implies !(#[trigger] split_at_sep(s, sep)[i]).contains(
                sep,
            ) by {
                if i < r.len() {
                    assert(split_at_sep(s, sep)[i] == r[i]);
                }
            }
        } else {
            let e = r.last().push(s.last());
            assert(!e.contains(sep)) by {
                assert forall|j: int| 0 <= j < e.len() implies e[j] != sep by {
                    if j < e.len() - 1 {
                        assert(e[j] == r.last()[j]);
                        assert(!r.last().contains(sep));
                        if r.last()[j] == sep {
                            assert(r.last().contains(sep));
                        }
                    }
                }
                if e.contains(sep) {
                    let j = choose|j: int| 0 <= j < e.len() && e[j] == sep;
                }
            }
            assert forall|i: int|
                0 <= i < split_at_sep(s, sep).len() implies !(#[trigger] split_at_sep(s, sep)[i]).contains(
                sep,
            ) by {
                if i < r.len() - 1 {
                    assert(split_at_sep(s, sep)[i] == r[i]);
                } else {
                    assert(split_at_sep(s, sep)[i] == e);
                }
            }
        }
    }
}

/// Law: joining the entries of a split value gives the value back: splitting
/// loses nothing and invents nothing.
pub proof fn lemma_join_split(s: Seq<u8>, sep: u8)
    ensures
        joined(split_at_sep(s, sep), sep) == s,
    decreases s.len(),
{
    if s.len() == 0 {
        assert(joined(split_at_sep(s, sep), sep) =~= s);
    } else {
        lemma_join_split(s.drop_last(), sep);
        lemma_split_len(s.drop_last(), sep);
        let r = split_at_sep(s.drop_last(), sep);
        if s.last() == sep {
            let r2 = r.push(Seq::<u8>::empty());
            assert(r2.drop_last() =~= r);
            assert(joined(r2, sep) == joined(r, sep) + seq![sep] + Seq::<u8>::empty());
            assert(joined(r2, sep) =~= s);
        } else {
            let r2 = r.update(r.len() - 1, r.last().push(s.last()));
            if r.len() == 1 {
                assert(r2.len() == 1);
                assert(joined(r2, sep) == r2[0]);
                assert(r2[0] == r[0].push(s.last()));
                assert(joined(r, sep) == r[0]);
                assert(s.drop_last().push(s.last()) =~= s);
                assert(joined(r2, sep) == s.drop_last().push(s.last()));
            } else {
                assert(r2.drop_last() =~= r.drop_last());
                assert(r2.last() == r.last().push(s.last()));
                assert(joined(r2, sep) == joined(r.drop_last(), sep) + seq![sep] + r2.last());
                assert(joined(r, sep) == joined(r.drop_last(), sep) + seq![sep] + r.last());
                assert(joined(r2, sep) =~= joined(r, sep).push(s.last()));
                assert(joined(r, sep).push(s.last()) =~= s);
            }
        }
    }
}

/// Splitting a separator-free value gives that one entry.
proof fn lemma_split_sep_free_value(e: Seq<u8>, sep: u8)
    requires
        !e.contains(sep),
    ensures
        split_at_sep(e, sep) == seq![e],
    decreases e.len(),
{
    if e.len() == 0 {
        assert(Seq::<u8>::empty() =~= e);
    } else {
        assert(e.last() != sep) by {
            if e.last() == sep {
                assert(e.contains(sep));
            }
        }
        assert(!e.drop_last().contains(sep)) by {
            if e.drop_last().contains(sep) {
                let j = choose|j: int|
                    0 <= j < e.drop_last().len() && e.drop_last()[j] == sep;
                assert(e[j] == sep);
            }
        }
        lemma_split_sep_free_value(e.drop_last(), sep);
        assert(split_at_sep(e, sep) =~= seq![e.drop_last().push(e.last())]);
        assert(e.drop_last().push(e.last()) =~= e);
        assert(split_at_sep(e, sep) =~= seq![e]);
    }
}

/// Appending a separator and then a separator-free tail appends one entry.
proof fn lemma_split_append_entry(a: Seq<u8>, t: Seq<u8>, sep: u8)
    requires
        !t.contains(sep),
    ensures
        split_at_sep(a + seq![sep] + t, sep) == split_at_sep(a, sep).push(t),
    decreases t.len(),
{
    let u = a + seq![sep] + t;
    if t.len() == 0 {
        assert(u =~= a.push(sep));
        assert(u.drop_last() =~= a);
        assert(u.last() == sep);
        assert(split_at_sep(u, sep) == split_at_sep(a, sep).push(Seq::<u8>::empty()));
        assert(t =~= Seq::<u8>::empty());
    } else {
        assert(t.last() != sep) by {
            if t.last() == sep {
                assert(t.contains(sep));
            }
        }
        assert(!t.drop_last().contains(sep)) by {
            if t.drop_last().contains(sep) {
                let j = choose|j: int|
                    0 <= j < t.drop_last().len() && t.drop_last()[j] == sep;
                assert(t[j] == sep);
            }
        }
        lemma_split_append_entry(a, t.drop_last(), sep);
        lemma_split_len(a, sep);
        assert(u.drop_last() =~= a + seq![sep] + t.drop_last());
        assert(u.last() == t.last());
        let r = split_at_sep(u.drop_last(), sep);
        assert(r == split_at_sep(a, sep).push(t.drop_last()));
        assert(split_at_sep(u, sep) == r.update(r.len() - 1, r.last().push(t.last())));
        assert(r.last() == t.drop_last());
        assert(t.drop_last().push(t.last()) =~= t);
        assert(r.update(r.len() - 1, t) =~= split_at_sep(a, sep).push(t));
    }
}

/// Law: splitting a joined sequence of separator-free entries gives the
/// entries back: joining loses nothing and invents nothing.
pub proof fn lemma_split_join(entries: Seq<Seq<u8>>, sep: u8)
    requires
        entries.len() >= 1,
        forall|i: int| 0 <= i < entries.len() ==> !(#[trigger] entries[i]).contains(sep),
    ensures
        split_at_sep(joined(entries, sep), sep) == entries,
    decreases entries.len(),
{
    if entries.len() == 1 {
        lemma_split_sep_free_value(entries[0], sep);
        assert(joined(entries, sep) == entries[0]);
        assert(seq![entries[0]] =~= entries);
    } else {
        let dl = entries.drop_last();
        assert(forall|i: int| 0 <= i < dl.len() ==> !(#[trigger] dl[i]).contains(sep)) by {
            assert(forall|i: int| 0 <= i < dl.len() ==> #[trigger] dl[i] == entries[i]);
        }
        lemma_split_join(dl, sep);
        lemma_split_append_entry(joined(dl, sep), entries.last(), sep);
        assert(joined(entries, sep) == joined(dl, sep) + seq![sep] + entries.last());
        assert(dl.push(entries.last()) =~= entries);
    }
}

/// Deduplication keeps exactly the values that were there: an entry stands in
/// the deduplicated sequence if and only if it stood in the original.
pub proof fn lemma_dedup_first_membership(entries: Seq<Seq<u8>>, x: Seq<u8>)
    ensures
        dedup_first(entries).contains(x) <==> entries.contains(x),
    decreases entries.len(),
{
    if entries.len() == 0 {
    } else {
        let dl = entries.drop_last();
        lemma_dedup_first_membership(dl, x);
        assert(entries.contains(x) <==> dl.contains(x) || x == entries.last()) by {
            if dl.contains(x) {
                let i = choose|i: int| 0 <= i < dl.len() && dl[i] == x;
                assert(entries[i] == x);
            }
            if x == entries.last() {
                assert(entries[entries.len() - 1] == x);
            }
            if entries.contains(x) {
                let i = choose|i: int| 0 <= i < entries.len() && entries[i] == x;
                if i < entries.len() - 1 {
                    assert(dl[i] == x);
                }
            }
        }
        if !dl.contains(entries.last()) {
            let d = dedup_first(dl);
            assert(d.push(entries.last()).contains(x) <==> d.contains(x) || x == entries.last())
                by {
                if d.contains(x) {
                    let i = choose|i: int| 0 <= i < d.len() && d[i] == x;
                    assert(d.push(entries.last())[i] == x);
                }
                if x == entries.last() {
                    assert(d.push(entries.last())[d.len() as int] == x);
                }
                if d.push(entries.last()).contains(x) {
                    let i = choose|i: int|
                        0 <= i < d.push(entries.last()).len() && d.push(entries.last())[i] == x;
                    if i < d.len() {
                        assert(d[i] == x);
                    }
                }
            }
        }
    }
}

/// Deduplication leaves no duplicate entries.
pub proof fn lemma_dedup_first_no_duplicates(entries: Seq<Seq<u8>>)
    ensures
        dedup_first(entries).no_duplicates(),
    decreases entries.len(),
{
    if entries.len() == 0 {
    } else {
        let dl = entries.drop_last();
        lemma_dedup_first_no_duplicates(dl);
        if !dl.contains(entries.last()) {
            lemma_dedup_first_membership(dl, entries.last());
            let d = dedup_first(dl);
            let d2 = d.push(entries.last());
            assert forall|i: int, j: int|
                0 <= i < d2.len() && 0 <= j < d2.len() && i != j implies d2[i] != d2[j] by {
                if i < d.len() && j < d.len() {
                    assert(d2[i] == d[i] && d2[j] == d[j]);
                } else if i < d.len() && j == d.len() {
                    if d[i] == entries.last() {
                        assert(d.contains(entries.last()));
                    }
                } else if j < d.len() && i == d.len() {
                    if d[j] == entries.last() {
                        assert(d.contains(entries.last()));
                    }
                }
            }
        }
    }
}

/// Law: the corrected search path holds every entry of the inherited value,
/// holds no entry twice, and holds nothing that did not come from the
/// inherited value, the shell probe, or the well-known directories.
pub proof fn lemma_corrected_path_superset(
    current: Seq<u8>,
    shell: Option<Seq<u8>>,
    extra: Seq<Seq<u8>>,
    sep: u8,
)
    ensures
        merged_entries(current, shell, extra, sep).no_duplicates(),
        forall|e: Seq<u8>|
            split_at_sep(current, sep).contains(e) ==> #[trigger] merged_entries(
                current,
                shell,
                extra,
                sep,
            ).contains(e),
        forall|e: Seq<u8>|
            #[trigger] merged_entries(current, shell, extra, sep).contains(e) ==> split_at_sep(
                current,
                sep,
            ).contains(e) || shell_entries(shell, sep).contains(e) || extra.contains(e),
{
    let cur = split_at_sep(current, sep);
    let sh = shell_entries(shell, sep);
    let all = cur + sh + extra;
    lemma_dedup_first_no_duplicates(all);
    assert forall|e: Seq<u8>| cur.contains(e) implies #[trigger] merged_entries(
        current,
        shell,
        extra,
        sep,
    ).contains(e) by {
        let i = choose|i: int| 0 <= i < cur.len() && cur[i] == e;
        assert(all[i] == e);
        lemma_dedup_first_membership(all, e);
    }
    assert forall|e: Seq<u8>| #[trigger] merged_entries(current, shell, extra, sep).contains(
        e,
    ) implies cur.contains(e) || sh.contains(e) || extra.contains(e) by {
        lemma_dedup_first_membership(all, e);
        let i = choose|i: int| 0 <= i < all.len() && all[i] == e;
        if i < cur.len() {
            assert(cur[i] == e);
        } else if i < cur.len() + sh.len() {
            assert(sh[i - cur.len()] == e);
        } else {
            assert(extra[i - cur.len() - sh.len()] == e);
        }
    }
}

/// Law: the value the corrected search path is rendered to parses back into
/// exactly the merged entries, whenever the well-known directories hold no
/// separator (which [`default_system_dirs`] guarantees of its list) — and
/// those entries are a duplicate-free superset of the inherited value's
/// directories, holding nothing that did not come from the inherited value,
/// the shell probe, or the well-known directories.
pub proof fn lemma_corrected_path_value(
    current: Seq<u8>,
    shell: Option<Seq<u8>>,
    extra: Seq<Seq<u8>>,
    sep: u8,
)
    requires
        forall|i: int| 0 <= i < extra.len() ==> !(#[trigger] extra[i]).contains(sep),
    ensures
        split_at_sep(joined(merged_entries(current, shell, extra, sep), sep), sep)
            == merged_entries(current, shell, extra, sep),
        merged_entries(current, shell, extra, sep).no_duplicates(),
        forall|e: Seq<u8>|
            split_at_sep(current, sep).contains(e) ==> #[trigger] merged_entries(
                current,
                shell,
                extra,
                sep,
            ).contains(e),
        forall|e: Seq<u8>|
            #[trigger] merged_entries(current, shell, extra, sep).contains(e) ==> split_at_sep(
                current,
                sep,
            ).contains(e) || shell_entries(shell, sep).contains(e) || extra.contains(e),
{
    lemma_corrected_path_superset(current, shell, extra, sep);
    let cur = split_at_sep(current, sep);
    let sh = shell_entries(shell, sep);
    let all = cur + sh + extra;
    let merged = merged_entries(current, shell, extra, sep);
    lemma_split_entries_sep_free(current, sep);
    match shell {
        Some(s) => lemma_split_entries_sep_free(s, sep),
        None => {},
    }
    assert forall|i: int| 0 <= i < all.len() implies !(#[trigger] all[i]).contains(sep) by {
        if i < cur.len() {
            assert(all[i] == cur[i]);
        } else if i < cur.len() + sh.len() {
            assert(all[i] == sh[i - cur.len()]);
        } else {
            assert(all[i] == extra[i - cur.len() - sh.len()]);
        }
    }
    assert forall|i: int| 0 <= i < merged.len() implies !(#[trigger] merged[i]).contains(sep) by {
        assert(merged.contains(merged[i]));
        lemma_dedup_first_membership(all, merged[i]);
        let j = choose|j: int| 0 <= j < all.len() && all[j] == merged[i];
    }
    lemma_split_len(current, sep);
    assert(all[0] == cur[0]);
    assert(all.contains(all[0]));
    lemma_dedup_first_membership(all, all[0]);
    assert(merged.len() >= 1);
    lemma_split_join(merged, sep);
}

/// Split a search-path value into its entries, in order.
pub fn split_path(s: &Vec<u8>, sep: u8) -> (r: Vec<Vec<u8>>)
    ensures
        entry_views(r@) == split_at_sep(s@, sep),
        r@.len() >= 1,
{
    let mut complete: Vec<Vec<u8>> = Vec::new();
    let mut cur: Vec<u8> = Vec::new();
    let n = s.len();
    let mut i: usize = 0;
    proof {
        assert(s@.subrange(0, 0) =~= Seq::<u8>::empty());
        assert(entry_views(complete@).push(cur@) =~= split_at_sep(s@.subrange(0, 0), sep));
    }
    while i < n
        invariant
            0 <= i <= n,
            n == s@.len(),
            entry_views(complete@).push(cur@) == split_at_sep(s@.subrange(0, i as int), sep),
        decreases n - i,
    {
        let ghost prefix = s@.subrange(0, i as int);
        let ghost prefix1 = s@.subrange(0, (i + 1) as int);
        proof {
            assert(prefix1.drop_last() =~= prefix);
            assert(prefix1.last() == s@[i as int]);
            assert(prefix1.len() > 0);
        }
        let b = s[i];
        if b == sep {
            let ghost done_pre = complete@;
            let ghost cur_pre = cur@;
            complete.push(cur);
            cur = Vec::new();
            proof {
                assert(entry_views(complete@) =~= entry_views(done_pre).push(cur_pre));
                assert(entry_views(complete@).push(cur@) =~= split_at_sep(prefix1, sep));
            }
        } else {
            let ghost cur_pre = cur@;
            cur.push(b);
            proof {
                let r = entry_views(complete@).push(cur_pre);
                lemma_split_len(prefix, sep);
                assert(split_at_sep(prefix1, sep) == r.update(r.len() - 1, r.last().push(s@[i as int])));
                assert(entry_views(complete@).push(cur@) =~= r.update(
                    r.len() - 1,
                    r.last().push(s@[i as int]),
                ));
            }
        }
        i = i + 1;
    }
    let ghost done_pre = complete@;
    let ghost cur_pre = cur@;
    complete.push(cur);
    proof {
        assert(s@.subrange(0, n as int) =~= s@);
        assert(entry_views(complete@) =~= entry_views(done_pre).push(cur_pre));
    }
    complete
}

/// Join entries into one search-path value, in order.
pub fn join_path(entries: &Vec<Vec<u8>>, sep: u8) -> (r: Vec<u8>)
    ensures
        r@ == joined(entry_views(entries@), sep),
{
    let mut r: Vec<u8> = Vec::new();
    let n = entries.len();
    if n == 0 {
        proof {
            assert(entry_views(entries@).len() == 0);
        }
        return r;
    }
    append_bytes(&mut r, &entries[0]);
    let mut i: usize = 1;
    proof {
        assert(entry_views(entries@.subrange(0, 1)).len() == 1);
        assert(entry_views(entries@.subrange(0, 1))[0] == entries@[0]@);
        assert(r@ == joined(entry_views(entries@.subrange(0, 1)), sep));
    }
    while i < n
        invariant
            1 <= i <= n,
            n == entries@.len(),
            r@ == joined(entry_views(entries@.subrange(0, i as int)), sep),
        decreases n - i,
    {
        r.push(sep);
        append_bytes(&mut r, &entries[i]);
        proof {
            let pre = entry_views(entries@.subrange(0, i as int));
            let pre1 = entry_views(entries@.subrange(0, (i + 1) as int));
            assert(pre1.drop_last() =~= pre);
            assert(pre1.last() == entries@[i as int]@);
            assert(pre1.len() >= 2);
            assert(joined(pre1, sep) == joined(pre, sep) + seq![sep] + pre1.last());
            assert(r@ =~= joined(pre, sep) + seq![sep] + pre1.last());
        }
        i = i + 1;
    }
    proof {
        assert(entries@.subrange(0, n as int) =~= entries@);
    }
    r
}

/// Whether `x` already stands among `entries`.
pub fn contains_entry(entries: &Vec<Vec<u8>>, x: &Vec<u8>) -> (r: bool)
    ensures
        r == entry_views(entries@).contains(x@),
{
    let n = entries.len();
    let mut i: usize = 0;
    while i < n
        invariant
            0 <= i <= n,
            n == entries@.len(),
            forall|j: int| 0 <= j < i ==> entries@[j]@ != x@,
        decreases n - i,
    {
        if bytes_eq(&entries[i], x) {
            proof {
                assert(entry_views(entries@)[i as int] == x@);
            }
            return true;
        }
        i = i + 1;
    }
    proof {
        if entry_views(entries@).contains(x@) {
            let j = choose|j: int|
                0 <= j < entry_views(entries@).len() && entry_views(entries@)[j] == x@;
            assert(entries@[j]@ == x@);
        }
    }
    false
}

/// Remove duplicate entries, keeping the first occurrence of each.
pub fn dedup_entries(entries: &Vec<Vec<u8>>) -> (r: Vec<Vec<u8>>)
    ensures
        entry_views(r@) == dedup_first(entry_views(entries@)),
{
    let mut out: Vec<Vec<u8>> = Vec::new();
    let n = entries.len();
    let mut i: usize = 0;
    proof {
        assert(entries@.subrange(0, 0) =~= Seq::<Vec<u8>>::empty());
        assert(entry_views(entries@.subrange(0, 0)).len() == 0);
        assert(entry_views(out@) =~= dedup_first(entry_views(entries@.subrange(0, 0))));
    }
    while i < n
        invariant
            0 <= i <= n,
            n == entries@.len(),
            entry_views(out@) == dedup_first(entry_views(entries@.subrange(0, i as int))),
        decreases n - i,
    {
        proof {
            let pre = entry_views(entries@.subrange(0, i as int));
            let pre1 = entry_views(entries@.subrange(0, (i + 1) as int));
            assert(pre1.drop_last() =~= pre);
            assert(pre1.last() == entries@[i as int]@);
            lemma_dedup_first_membership(pre, entries@[i as int]@);
        }
        let present = contains_entry(&out, &entries[i]);
        if !present {
            let ghost out_pre = out@;
            out.push(copy_bytes(&entries[i]));
            proof {
                assert(entry_views(out@) =~= entry_views(out_pre).push(entries@[i as int]@));
            }
        }
        i = i + 1;
    }
    proof {
        assert(entries@.subrange(0, n as int) =~= entries@);
    }
    out
}

/// The corrected search path, as entries: the inherited value's entries, then
/// the shell probe's (when the probe succeeded), then the well-known
/// directories, duplicates removed keeping first occurrence.
pub fn corrected_path_entries(
    current: &Vec<u8>,
    shell_path: &Option<Vec<u8>>,
    extra_dirs: &Vec<Vec<u8>>,
    sep: u8,
) -> (r: Vec<Vec<u8>>)
    ensures
        entry_views(r@) == merged_entries(
            current@,
            opt_bytes_view(*shell_path),
            entry_views(extra_dirs@),
            sep,
        ),
{
    let mut all = split_path(current, sep);
    let ghost cur_part = entry_views(all@);
    match shell_path {
        Some(sh) => {
            let mut more = split_path(sh, sep);
            let ghost more_part = entry_views(more@);
            let ghost all_pre = all@;
            all.append(&mut more);
            proof {
                assert(entry_views(all@) =~= entry_views(all_pre) + more_part);
            }
        },
        None => {
            proof {
                assert(entry_views(all@) =~= cur_part + shell_entries(
                    opt_bytes_view(*shell_path),
                    sep,
                ));
            }
        },
    }
    let ghost with_shell = entry_views(all@);
    let n = extra_dirs.len();
    let mut i: usize = 0;
    proof {
        assert(extra_dirs@.subrange(0, 0) =~= Seq::<Vec<u8>>::empty());
        assert(entry_views(all@) =~= with_shell + entry_views(extra_dirs@.subrange(0, 0)));
    }
    while i < n
        invariant
            0 <= i <= n,
            n == extra_dirs@.len(),
            entry_views(all@) == with_shell + entry_views(extra_dirs@.subrange(0, i as int)),
        decreases n - i,
    {
        let ghost all_pre = all@;
        all.push(copy_bytes(&extra_dirs[i]));
        proof {
            assert(extra_dirs@.subrange(0, (i + 1) as int).drop_last() =~= extra_dirs@.subrange(
                0,
                i as int,
            ));
            assert(entry_views(all@) =~= entry_views(all_pre).push(extra_dirs@[i as int]@));
            assert(entry_views(all@) =~= with_shell + entry_views(
                extra_dirs@.subrange(0, (i + 1) as int),
            ));
        }
        i = i + 1;
    }
    proof {
        assert(extra_dirs@.subrange(0, n as int) =~= extra_dirs@);
        assert(entry_views(all@) =~= split_at_sep(current@, sep) + shell_entries(
            opt_bytes_view(*shell_path),
            sep,
        ) + entry_views(extra_dirs@));
    }
    dedup_entries(&all)
}

/// One well-known directory, rendered to bytes.
fn dir_bytes(s: &str) -> (r: Vec<u8>)
    requires
        s.is_ascii(),
    ensures
        r@ == ascii_bytes(s@),
{
    let r = s.as_bytes_vec();
    proof {
        vstd::string::is_ascii_spec_bytes(s);
        assert(r@ =~= ascii_bytes(s@));
    }
    r
}

/// A directory literal is a usable search-path entry: non-empty and free of
/// both entry separators.
proof fn lemma_usable_dir(s: &str)
    requires
        s.is_ascii(),
        s@.len() > 0,
        forall|j: int| 0 <= j < s@.len() ==> #[trigger] s@[j] != ':' && s@[j] != ';',
    ensures
        ascii_bytes(s@).len() > 0,
        !ascii_bytes(s@).contains(UNIX_PATH_SEPARATOR),
        !ascii_bytes(s@).contains(WINDOWS_PATH_SEPARATOR),
{
    if ascii_bytes(s@).contains(UNIX_PATH_SEPARATOR) {
        let j = choose|j: int|
            0 <= j < ascii_bytes(s@).len() && ascii_bytes(s@)[j] == UNIX_PATH_SEPARATOR;
        assert(s@[j] != ':' && '\0' <= s@[j] <= '\u{7f}');
    }
    if ascii_bytes(s@).contains(WINDOWS_PATH_SEPARATOR) {
        let j = choose|j: int|
            0 <= j < ascii_bytes(s@).len() && ascii_bytes(s@)[j] == WINDOWS_PATH_SEPARATOR;
        assert(s@[j] != ';' && '\0' <= s@[j] <= '\u{7f}');
    }
}

/// Law: every well-known directory is a usable entry: non-empty and free of
/// both entry separators.  So the corrected-path laws apply to the exact list
/// that [`default_system_dirs`] merges: with
/// [`lemma_corrected_path_value`], the corrected value renders and parses
/// back to a duplicate-free superset of the inherited value's directories.
pub proof fn lemma_well_known_dirs_usable()
    ensures
        forall|i: int|
            0 <= i < well_known_dir_list().len() ==> {
                &&& (#[trigger] well_known_dir_list()[i]).len() > 0
                &&& !well_known_dir_list()[i].contains(UNIX_PATH_SEPARATOR)
                &&& !well_known_dir_list()[i].contains(WINDOWS_PATH_SEPARATOR)
            },
{
    reveal_strlit("/usr/local/bin");
    reveal_strlit("/usr/local/sbin");
    reveal_strlit("/usr/bin");
    reveal_strlit("/usr/sbin");
    reveal_strlit("/bin");
    reveal_strlit("/sbin");
    reveal_strlit("/opt/homebrew/bin");
    reveal_strlit("/opt/homebrew/sbin");
    lemma_usable_dir("/usr/local/bin");
    lemma_usable_dir("/usr/local/sbin");
    lemma_usable_dir("/usr/bin");
    lemma_usable_dir("/usr/sbin");
    lemma_usable_dir("/bin");
    lemma_usable_dir("/sbin");
    lemma_usable_dir("/opt/homebrew/bin");
    lemma_usable_dir("/opt/homebrew/sbin");
}

/// Well-known binary directories that GUI-launched processes often miss:
/// package-manager and language-toolchain install locations.  They are merged
/// after the inherited and probed entries, so they never displace an entry
/// the environment already had, and each is a usable entry: non-empty and
/// free of both entry separators.
pub fn default_system_dirs() -> (r: Vec<Vec<u8>>)
    ensures
        entry_views(r@) == well_known_dir_list(),
        forall|i: int|
            0 <= i < r@.len() ==> {
                &&& (#[trigger] r@[i])@.len() > 0
                &&& !r@[i]@.contains(UNIX_PATH_SEPARATOR)
                &&& !r@[i]@.contains(WINDOWS_PATH_SEPARATOR)
            },
{
    proof {
        reveal_strlit("/usr/local/bin");
        reveal_strlit("/usr/local/sbin");
        reveal_strlit("/usr/bin");
        reveal_strlit("/usr/sbin");
        reveal_strlit("/bin");
        reveal_strlit("/sbin");
        reveal_strlit("/opt/homebrew/bin");
        reveal_strlit("/opt/homebrew/sbin");
        lemma_well_known_dirs_usable();
    }
    let mut r: Vec<Vec<u8>> = Vec::new();
    r.push(dir_bytes("/usr/local/bin"));
    r.push(dir_bytes("/usr/local/sbin"));
    r.push(dir_bytes("/usr/bin"));
    r.push(dir_bytes("/usr/sbin"));
    r.push(dir_bytes("/bin"));
    r.push(dir_bytes("/sbin"));
    r.push(dir_bytes("/opt/homebrew/bin"));
    r.push(dir_bytes("/opt/homebrew/sbin"));
    proof {
        assert(entry_views(r@) =~= well_known_dir_list());
        assert forall|i: int|
            0 <= i < r@.len() implies {
            &&& (#[trigger] r@[i])@.len() > 0
            &&& !r@[i]@.contains(UNIX_PATH_SEPARATOR)
            &&& !r@[i]@.contains(WINDOWS_PATH_SEPARATOR)
        } by {
            assert(r@[i]@ == well_known_dir_list()[i]);
        }
    }
    r
}

/// The corrected search path, as one value ready to put back into the
/// environment.  The entries of the inherited value all survive, none is
/// duplicated, and nothing enters that did not come from the inherited value,
/// the shell probe, or the well-known directories
/// (see [`lemma_corrected_path_superset`]).
pub fn corrected_path(
    current: &Vec<u8>,
    shell_path: &Option<Vec<u8>>,
    extra_dirs: &Vec<Vec<u8>>,
    sep: u8,
) -> (r: Vec<u8>)
    ensures
        r@ == joined(
            merged_entries(current@, opt_bytes_view(*shell_path), entry_views(extra_dirs@), sep),
            sep,
        ),
{
    let entries = corrected_path_entries(current, shell_path, extra_dirs, sep);
    join_path(&entries, sep)
}

/// The corrected search path with the well-known directories merged in: the
/// exact value the engine's `fix_path_env` operation puts back into the
/// environment.  By [`lemma_well_known_dirs_usable`] and
/// [`lemma_corrected_path_value`], its directories are a duplicate-free
/// superset of the inherited value's.
pub fn corrected_path_with_defaults(current: &Vec<u8>, shell_path: &Option<Vec<u8>>) -> (r: Vec<
    u8,
>)
    ensures
        r@ == joined(
            merged_entries(
                current@,
                opt_bytes_view(*shell_path),
                well_known_dir_list(),
                UNIX_PATH_SEPARATOR,
            ),
            UNIX_PATH_SEPARATOR,
        ),
{
    let dirs = default_system_dirs();
    corrected_path(current, shell_path, &dirs, UNIX_PATH_SEPARATOR)
}

} // verus!
