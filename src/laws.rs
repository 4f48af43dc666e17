//! Properties that relate the operations of the cache to one another.
use vstd::prelude::*;
use crate::naming::{
    app_part, descriptor_part, encodes, is_cache_name, join_path, lemma_cache_name_fields,
    version_part,
};
use crate::cache::{
    download_suffix, entry_model, keep_prefixed, paths_of, query_model, scan_model, trim_star, EntryModel,
};

verus! {

/// The names of `names` whose path in `dir` is not among `removed`, in order.
pub open spec fn remaining_names(dir: Seq<char>, names: Seq<Seq<char>>, removed: Seq<Seq<char>>) -> Seq<
    Seq<char>,
>
    decreases names.len(),
{
    if names.len() == 0 {
        Seq::empty()
    } else {
        let prev = remaining_names(dir, names.drop_last(), removed);
        if removed.contains(join_path(dir, names.last())) {
            prev
        } else {
            prev.push(names.last())
        }
    }
}

/// The listing of `dir` once the plan of `clean(pattern)` has been carried out.
pub open spec fn listing_after_clean(dir: Seq<char>, names: Seq<Seq<char>>, pattern: Seq<char>) -> Seq<
    Seq<char>,
> {
    if pattern == seq!['*'] {
        Seq::empty()
    } else {
        remaining_names(dir, names, paths_of(query_model(dir, names, pattern)))
    }
}

/// The entries of `es` whose path is not among `removed`, in order.
pub open spec fn drop_paths(es: Seq<EntryModel>, removed: Seq<Seq<char>>) -> Seq<EntryModel>
    decreases es.len(),
{
    if es.len() == 0 {
        Seq::empty()
    } else {
        let prev = drop_paths(es.drop_last(), removed);
        if removed.contains(es.last().3) {
            prev
        } else {
            prev.push(es.last())
        }
    }
}

/// Where the file name starts in a path of `dir`.
pub open spec fn name_offset(dir: Seq<char>) -> int {
    if dir.len() == 0 {
        0
    } else if dir.last() == '/' || dir.last() == '\\' {
        dir.len() as int
    } else {
        dir.len() + 1int
    }
}

proof fn lemma_push_contains<A>(s: Seq<A>, x: A, e: A)
    ensures
        s.push(x).contains(e) <==> (s.contains(e) || e == x),
{
    if s.push(x).contains(e) {
        let i = choose|i: int| 0 <= i < s.push(x).len() && s.push(x)[i] == e;
        if i < s.len() {
            assert(s[i] == e);
        }
    }
    if e == x {
        assert(s.push(x)[s.len() as int] == e);
    } else if s.contains(e) {
        let i = choose|i: int| 0 <= i < s.len() && s[i] == e;
        assert(s.push(x)[i] == e);
    }
}

proof fn lemma_keep_prefixed_contains(es: Seq<EntryModel>, q: Seq<char>)
    ensures
        forall|e: EntryModel| #[trigger]
            keep_prefixed(es, q).contains(e) <==> (es.contains(e) && q.is_prefix_of(e.0)),
    decreases es.len(),
{
    if es.len() > 0 {
        let init = es.drop_last();
        let x = es.last();
        lemma_keep_prefixed_contains(init, q);
        assert(es =~= init.push(x));
        assert forall|e: EntryModel| #[trigger]
            keep_prefixed(es, q).contains(e) <==> (es.contains(e) && q.is_prefix_of(e.0)) by {
            lemma_push_contains(init, x, e);
            lemma_push_contains(keep_prefixed(init, q), x, e);
        }
    }
}

proof fn lemma_keep_prefixed_empty(es: Seq<EntryModel>)
    ensures
        keep_prefixed(es, Seq::empty()) == es,
    decreases es.len(),
{
    if es.len() > 0 {
        lemma_keep_prefixed_empty(es.drop_last());
        assert(Seq::<char>::empty() =~= es.last().0.subrange(0, 0));
        assert(es.drop_last().push(es.last()) =~= es);
    }
}

proof fn lemma_drop_paths_contains(es: Seq<EntryModel>, removed: Seq<Seq<char>>)
    ensures
        forall|e: EntryModel| #[trigger]
            drop_paths(es, removed).contains(e) <==> (es.contains(e) && !removed.contains(e.3)),
    decreases es.len(),
{
    if es.len() > 0 {
        let init = es.drop_last();
        let x = es.last();
        lemma_drop_paths_contains(init, removed);
        assert(es =~= init.push(x));
        assert forall|e: EntryModel| #[trigger]
            drop_paths(es, removed).contains(e) <==> (es.contains(e) && !removed.contains(e.3)) by {
            lemma_push_contains(init, x, e);
            lemma_push_contains(drop_paths(init, removed), x, e);
        }
    }
}

proof fn lemma_scan_remaining(dir: Seq<char>, names: Seq<Seq<char>>, removed: Seq<Seq<char>>)
    ensures
        scan_model(dir, remaining_names(dir, names, removed)) == drop_paths(
            scan_model(dir, names),
            removed,
        ),
    decreases names.len(),
{
    if names.len() > 0 {
        let init = names.drop_last();
        let n = names.last();
        lemma_scan_remaining(dir, init, removed);
        let prev = remaining_names(dir, init, removed);
        assert(prev.push(n).drop_last() =~= prev);
        let s = scan_model(dir, init);
        assert(s.push(entry_model(dir, n)).drop_last() =~= s);
    }
}

/// The entry of the cache file that the path `p` in `dir` names.
pub open spec fn entry_from_path(dir: Seq<char>, p: Seq<char>) -> EntryModel {
    entry_model(dir, p.subrange(name_offset(dir), p.len() as int))
}

/// Each scanned entry is the entry of the file that its path names.
proof fn lemma_scan_entries(dir: Seq<char>, names: Seq<Seq<char>>)
    ensures
        forall|k: int|
            0 <= k < scan_model(dir, names).len() ==> #[trigger] scan_model(dir, names)[k]
                == entry_from_path(dir, scan_model(dir, names)[k].3),
    decreases names.len(),
{
    if names.len() > 0 {
        let n = names.last();
        let prev = scan_model(dir, names.drop_last());
        lemma_scan_entries(dir, names.drop_last());
        let p = join_path(dir, n);
        assert(p.subrange(name_offset(dir), p.len() as int) =~= n);
        let all = scan_model(dir, names);
        assert forall|k: int| 0 <= k < all.len() implies #[trigger] all[k] == entry_from_path(
            dir,
            all[k].3,
        ) by {
            if k < prev.len() {
                assert(all[k] == prev[k]);
            }
        }
    }
}

/// Splitting a valid cache file name gives back the package name and version
/// (and descriptor) it was built from.
pub proof fn law_entry_fields(s: Seq<char>, a: Seq<char>, v: Seq<char>, d: Seq<char>)
    requires
        encodes(s, a, v, d),
    ensures
        is_cache_name(s),
        entry_model(Seq::empty(), s).0 == a,
        entry_model(Seq::empty(), s).1 == v,
        forall|dir: Seq<char>|
            #![auto]
            entry_model(dir, s).0 == a && entry_model(dir, s).1 == v && entry_model(dir, s).2 == d,
{
    lemma_cache_name_fields(s, a, v, d);
}

/// The pattern `*` selects exactly the entries of a full scan.
pub proof fn law_star_selects_all(dir: Seq<char>, names: Seq<Seq<char>>)
    ensures
        query_model(dir, names, seq!['*']) == scan_model(dir, names),
{
}

/// A prefix without a trailing `*` selects exactly the entries whose package
/// name starts with it, and adding a `*` to it selects the same entries.
pub proof fn law_prefix_query(dir: Seq<char>, names: Seq<Seq<char>>, p: Seq<char>)
    requires
        p.len() == 0 || p.last() != '*',
    ensures
        forall|e: EntryModel|
            #[trigger] query_model(dir, names, p).contains(e) <==> (scan_model(dir, names).contains(
                e,
            ) && p.is_prefix_of(e.0)),
        query_model(dir, names, p + seq!['*']) == query_model(dir, names, p),
{
    let all = scan_model(dir, names);
    let ps = p + seq!['*'];
    assert(p != seq!['*']);
    assert(trim_star(p) == p);
    lemma_keep_prefixed_contains(all, p);
    assert(ps.drop_last() =~= p);
    assert(trim_star(ps) == p);
    if p.len() == 0 {
        assert(ps =~= seq!['*']);
        lemma_keep_prefixed_empty(all);
    } else {
        assert(ps.len() > 1);
    }
}

/// The empty pattern selects every entry, so it covers what any pattern selects.
pub proof fn law_empty_query_covers(dir: Seq<char>, names: Seq<Seq<char>>, p: Seq<char>)
    ensures
        query_model(dir, names, Seq::empty()) == scan_model(dir, names),
        forall|e: EntryModel| #[trigger]
            query_model(dir, names, p).contains(e) ==> query_model(
                dir,
                names,
                Seq::empty(),
            ).contains(e),
{
    let all = scan_model(dir, names);
    assert(seq!['*'].len() == 1);
    assert(Seq::<char>::empty() != seq!['*']);
    lemma_keep_prefixed_empty(all);
    if p != seq!['*'] {
        lemma_keep_prefixed_contains(all, trim_star(p));
    }
}

/// After a clean, a scan finds nothing when the pattern was `*`; otherwise it
/// finds exactly the entries that were there and that the pattern did not select.
pub proof fn law_clean(dir: Seq<char>, names: Seq<Seq<char>>, pattern: Seq<char>)
    ensures
        pattern == seq!['*'] ==> scan_model(dir, listing_after_clean(dir, names, pattern)).len()
            == 0,
        pattern != seq!['*'] ==> forall|e: EntryModel|
            #[trigger] scan_model(dir, listing_after_clean(dir, names, pattern)).contains(e) <==> (
            scan_model(dir, names).contains(e) && !query_model(dir, names, pattern).contains(e)),
{
    if pattern != seq!['*'] {
        let all = scan_model(dir, names);
        let q = query_model(dir, names, pattern);
        let removed = paths_of(q);
        lemma_scan_remaining(dir, names, removed);
        lemma_drop_paths_contains(all, removed);
        lemma_keep_prefixed_contains(all, trim_star(pattern));
        lemma_scan_entries(dir, names);
        assert forall|e: EntryModel| all.contains(e) implies (removed.contains(e.3)
            <==> q.contains(e)) by {
            if q.contains(e) {
                let k = choose|k: int| 0 <= k < q.len() && q[k] == e;
                assert(removed[k] == e.3);
            }
            if removed.contains(e.3) {
                let k = choose|k: int| 0 <= k < removed.len() && removed[k] == e.3;
                let f = q[k];
                assert(q.contains(f));
                assert(all.contains(f));
                let i = choose|i: int| 0 <= i < all.len() && all[i] == f;
                let j = choose|j: int| 0 <= j < all.len() && all[j] == e;
                assert(all[i] == f);
                assert(all[j] == e);
            }
        }
    }
}

/// The destination of a download ends with the file name and lies under the
/// working directory; the temporary file is that path with `.download` added.
pub proof fn law_stage_path(dir: Seq<char>, filename: Seq<char>)
    ensures
        filename.is_suffix_of(join_path(dir, filename)),
        dir.is_prefix_of(join_path(dir, filename)),
        join_path(dir, filename).is_prefix_of(join_path(dir, filename) + download_suffix()),
{
    let p = join_path(dir, filename);
    assert(filename =~= p.subrange(p.len() - filename.len(), p.len() as int));
    assert(dir =~= p.subrange(0, dir.len() as int));
    assert(p =~= (p + download_suffix()).subrange(0, p.len() as int));
}

} // verus!
