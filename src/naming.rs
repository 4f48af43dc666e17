//! The on-disk naming scheme `<package>#<version>#<descriptor>`.
use vstd::prelude::*;
use vstd::string::*;

verus! {

/// The characters allowed in a package name and in a version.
pub open spec fn is_name_char(c: char) -> bool {
    ('a' <= c && c <= 'z') || ('A' <= c && c <= 'Z') || ('0' <= c && c <= '9') || c == '.'
        || c == '_' || c == '-'
}

/// A non-empty run of name characters.
pub open spec fn is_field(s: Seq<char>) -> bool {
    s.len() > 0 && forall|k: int| 0 <= k < s.len() ==> is_name_char(#[trigger] s[k])
}

/// Index of the first `#` at or after `from`, or the length when there is none.
pub open spec fn hash_index(s: Seq<char>, from: nat) -> nat
    decreases s.len() - from,
{
    if from >= s.len() {
        s.len()
    } else if s[from as int] == '#' {
        from
    } else {
        hash_index(s, from + 1)
    }
}

pub open spec fn first_sep(s: Seq<char>) -> nat {
    hash_index(s, 0)
}

pub open spec fn second_sep(s: Seq<char>) -> nat {
    hash_index(s, first_sep(s) + 1)
}

/// The package name: everything before the first `#`.
pub open spec fn app_part(s: Seq<char>) -> Seq<char> {
    s.subrange(0, first_sep(s) as int)
}

/// The version: everything between the first and the second `#`.
pub open spec fn version_part(s: Seq<char>) -> Seq<char> {
    s.subrange(first_sep(s) + 1int, second_sep(s) as int)
}

/// The descriptor: everything after the second `#`.
pub open spec fn descriptor_part(s: Seq<char>) -> Seq<char> {
    s.subrange(second_sep(s) + 1int, s.len() as int)
}

/// A file name of the cache: two `#`, with a package name and a version of
/// name characters before them.
pub open spec fn is_cache_name(s: Seq<char>) -> bool {
    second_sep(s) < s.len() && is_field(app_part(s)) && is_field(version_part(s))
}

/// `s` is the name built from the fields `a`, `v` and `d`.
pub open spec fn encodes(s: Seq<char>, a: Seq<char>, v: Seq<char>, d: Seq<char>) -> bool {
    is_field(a) && is_field(v) && s == a + seq!['#'] + v + seq!['#'] + d
}

/// The path of the file `name` in the directory `dir`.
pub open spec fn join_path(dir: Seq<char>, name: Seq<char>) -> Seq<char> {
    if dir.len() == 0 {
        name
    } else if dir.last() == '/' || dir.last() == '\\' {
        dir + name
    } else {
        dir + seq!['/'] + name
    }
}

pub proof fn lemma_hash_index(s: Seq<char>, from: nat)
    requires
        from <= s.len(),
    ensures
        from <= hash_index(s, from) <= s.len(),
        forall|k: int| from <= k < hash_index(s, from) ==> s[k] != '#',
        hash_index(s, from) < s.len() ==> s[hash_index(s, from) as int] == '#',
    decreases s.len() - from,
{
    if from < s.len() && s[from as int] != '#' {
        lemma_hash_index(s, from + 1);
    }
}

pub proof fn lemma_hash_index_at(s: Seq<char>, from: nat, i: nat)
    requires
        from <= i < s.len(),
        s[i as int] == '#',
        forall|k: int| from <= k < i ==> s[k] != '#',
    ensures
        hash_index(s, from) == i,
    decreases i - from,
{
    if from < i {
        lemma_hash_index_at(s, from + 1, i);
    }
}

/// The layout of a cache file name, character by character.
pub proof fn lemma_cache_name_shape(s: Seq<char>)
    requires
        is_cache_name(s),
    ensures
        0 < first_sep(s),
        first_sep(s) + 1 < second_sep(s),
        second_sep(s) < s.len(),
        s[first_sep(s) as int] == '#',
        s[second_sep(s) as int] == '#',
        forall|k: int| 0 <= k < first_sep(s) ==> is_name_char(#[trigger] s[k]),
        forall|k: int| first_sep(s) < k < second_sep(s) ==> is_name_char(#[trigger] s[k]),
{
    lemma_hash_index(s, 0);
    lemma_hash_index(s, first_sep(s) + 1);
    assert forall|k: int| 0 <= k < first_sep(s) implies is_name_char(#[trigger] s[k]) by {
        assert(app_part(s)[k] == s[k]);
    }
    assert forall|k: int| first_sep(s) < k < second_sep(s) implies is_name_char(
        #[trigger] s[k],
    ) by {
        assert(version_part(s)[k - first_sep(s) - 1] == s[k]);
    }
}

/// A name built from valid fields is a cache name, and splitting it gives the
/// fields back.
pub proof fn lemma_cache_name_fields(s: Seq<char>, a: Seq<char>, v: Seq<char>, d: Seq<char>)
    requires
        encodes(s, a, v, d),
    ensures
        is_cache_name(s),
        app_part(s) == a,
        version_part(s) == v,
        descriptor_part(s) == d,
{
    let i = a.len();
    let j = a.len() + 1 + v.len();
    assert(s[i as int] == '#');
    assert forall|k: int| 0 <= k < i implies s[k] != '#' by {
        assert(s[k] == a[k]);
    }
    lemma_hash_index_at(s, 0, i);
    assert(s[j as int] == '#');
    assert forall|k: int| i + 1 <= k < j implies s[k] != '#' by {
        assert(s[k] == v[k - i - 1]);
    }
    lemma_hash_index_at(s, i + 1, j);
    assert(app_part(s) =~= a);
    assert(version_part(s) =~= v);
    assert(descriptor_part(s) =~= d);
}

pub fn is_name_char_exec(c: char) -> (r: bool)
    ensures
        r == is_name_char(c),
{
    ('a' <= c && c <= 'z') || ('A' <= c && c <= 'Z') || ('0' <= c && c <= '9') || c == '.'
        || c == '_' || c == '-'
}

/// The end of the run of name characters that starts at `from`.
fn field_end(s: &str, from: usize) -> (r: usize)
    requires
        from <= s@.len(),
    ensures
        from <= r <= s@.len(),
        forall|k: int| from <= k < r ==> is_name_char(#[trigger] s@[k]),
        r < s@.len() ==> !is_name_char(s@[r as int]),
{
    let n = s.unicode_len();
    let mut i: usize = from;
    while i < n
        invariant
            from <= i <= n,
            n == s@.len(),
            forall|k: int| from <= k < i ==> is_name_char(#[trigger] s@[k]),
        decreases n - i,
    {
        if !is_name_char_exec(s.get_char(i)) {
            return i;
        }
        i = i + 1;
    }
    i
}

/// The positions of the two separators of a cache file name, or `None` when
/// `s` is not one.
pub fn separators(s: &str) -> (r: Option<(usize, usize)>)
    ensures
        is_cache_name(s@) ==> r == Some((first_sep(s@) as usize, second_sep(s@) as usize)),
        !is_cache_name(s@) ==> r is None,
{
    let n = s.unicode_len();
    let i = field_end(s, 0);
    proof {
        if is_cache_name(s@) {
            lemma_cache_name_shape(s@);
            if i < first_sep(s@) {
                assert(is_name_char(s@[i as int]));
            }
            if i > first_sep(s@) {
                assert(is_name_char(s@[first_sep(s@) as int]));
            }
        }
    }
    if i == 0 || i >= n {
        return None;
    }
    if s.get_char(i) != '#' {
        return None;
    }
    let j = field_end(s, i + 1);
    proof {
        lemma_hash_index_at(s@, 0, i as nat);
        if is_cache_name(s@) {
            if j < second_sep(s@) {
                assert(is_name_char(s@[j as int]));
            }
            if j > second_sep(s@) {
                assert(is_name_char(s@[second_sep(s@) as int]));
            }
        }
    }
    if j == i + 1 || j >= n {
        return None;
    }
    if s.get_char(j) != '#' {
        return None;
    }
    proof {
        lemma_hash_index_at(s@, (i + 1) as nat, j as nat);
        let a = app_part(s@);
        let v = version_part(s@);
        assert forall|k: int| 0 <= k < a.len() implies is_name_char(#[trigger] a[k]) by {
            assert(a[k] == s@[k]);
        }
        assert forall|k: int| 0 <= k < v.len() implies is_name_char(#[trigger] v[k]) by {
            assert(v[k] == s@[k + i + 1]);
        }
    }
    Some((i, j))
}

/// Whether `s` is the name of a cache file.
pub fn is_cache_file_name(s: &str) -> (r: bool)
    ensures
        r == is_cache_name(s@),
{
    separators(s).is_some()
}

/// Splits a cache file name into package name, version and descriptor.
pub fn split_cache_name(s: &str) -> (r: (String, String, String))
    requires
        is_cache_name(s@),
    ensures
        r.0@ == app_part(s@),
        r.1@ == version_part(s@),
        r.2@ == descriptor_part(s@),
{
    let n = s.unicode_len();
    let (i, j) = separators(s).unwrap();
    proof {
        lemma_cache_name_shape(s@);
    }
    let a = String::from_str(s.substring_char(0, i));
    let v = String::from_str(s.substring_char(i + 1, j));
    let d = String::from_str(s.substring_char(j + 1, n));
    (a, v, d)
}

/// The path of the file `name` in the directory `dir`.
pub fn join(dir: &str, name: &str) -> (r: String)
    ensures
        r@ == join_path(dir@, name@),
{
    let n = dir.unicode_len();
    if n == 0 {
        return String::from_str(name);
    }
    let last = dir.get_char(n - 1);
    let mut r = String::from_str(dir);
    if last != '/' && last != '\\' {
        proof {
            reveal_strlit("/");
        }
        r.append("/");
    }
    r.append(name);
    r
}

} // verus!
