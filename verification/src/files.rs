//! Selection and ordering of candidate source photographs.
//!
//! A directory listing (immediate children only) is reduced to the files
//! whose extension, compared without regard to ASCII case, is one of
//! jpg, jpeg, png, bmp, gif or tiff, and the survivors are sorted by full
//! path ascending so that every run enumerates its inputs in the same order.

use vstd::prelude::*;

verus! {

/// One immediate child of the source folder, as the host reports it.
#[derive(Clone, Debug)]
pub struct FileEntry {
    /// Full path of the entry.
    pub path: String,
    /// Final path component (file name with its extension).
    pub name: String,
    /// Whether the entry is a regular file rather than a directory.
    pub is_file: bool,
}

/// ASCII upper-case letters fold onto their lower-case code; everything else
/// keeps its own code.
pub open spec fn lower_code(c: char) -> u32 {
    if 65 <= c as u32 && c as u32 <= 90 {
        (c as u32 + 32) as u32
    } else {
        c as u32
    }
}

/// `s` equals `t` once ASCII case in `s` is folded.
pub open spec fn matches_ignore_case(s: Seq<char>, t: Seq<char>) -> bool {
    s.len() == t.len() && forall|i: int| 0 <= i < s.len() ==> lower_code(s[i]) == t[i] as u32
}

/// Greatest index of `'.'` in `s`, or `-1` when `s` holds none.
pub open spec fn last_dot_at(s: Seq<char>) -> int
    decreases s.len(),
{
    if s.len() == 0 {
        -1
    } else if s.last() == '.' {
        s.len() - 1
    } else {
        last_dot_at(s.drop_last())
    }
}

/// The extension of a file name: what follows the last dot, provided that
/// dot is neither absent nor the leading character.
pub open spec fn ext_of(name: Seq<char>) -> Seq<char> {
    name.subrange(last_dot_at(name) + 1, name.len() as int)
}

/// The stem of a file name: what precedes the last dot, or the whole name
/// when the name has no extension.
pub open spec fn stem_of(name: Seq<char>) -> Seq<char> {
    if last_dot_at(name) > 0 {
        name.subrange(0, last_dot_at(name))
    } else {
        name
    }
}

/// A file name carries one of the supported raster-image extensions.
pub open spec fn is_image_ext(name: Seq<char>) -> bool {
    last_dot_at(name) > 0 && (matches_ignore_case(ext_of(name), "jpg"@)
        || matches_ignore_case(ext_of(name), "jpeg"@)
        || matches_ignore_case(ext_of(name), "png"@)
        || matches_ignore_case(ext_of(name), "bmp"@)
        || matches_ignore_case(ext_of(name), "gif"@)
        || matches_ignore_case(ext_of(name), "tiff"@))
}

/// An enumeration entry that the pipeline retains.
pub open spec fn is_image_entry(e: FileEntry) -> bool {
    e.is_file && is_image_ext(e.name@)
}

/// Lexicographic order on character sequences by code point, the order in
/// which a run walks its source files.
pub open spec fn lex_le(a: Seq<char>, b: Seq<char>) -> bool
    decreases a.len(),
{
    if a.len() == 0 {
        true
    } else if b.len() == 0 {
        false
    } else if (a[0] as u32) < (b[0] as u32) {
        true
    } else if (a[0] as u32) > (b[0] as u32) {
        false
    } else {
        lex_le(a.drop_first(), b.drop_first())
    }
}

proof fn lemma_last_dot(s: Seq<char>, d: int)
    requires
        0 <= d < s.len(),
        s[d] == '.',
        forall|k: int| d < k < s.len() ==> s[k] != '.',
    ensures
        last_dot_at(s) == d,
    decreases s.len(),
{
    if d == s.len() - 1 {
    } else {
        assert(s.last() != '.');
        assert(forall|k: int| 0 <= k < s.len() - 1 ==> s.drop_last()[k] == s[k]);
        lemma_last_dot(s.drop_last(), d);
    }
}

proof fn lemma_no_dot(s: Seq<char>)
    requires
        forall|k: int| 0 <= k < s.len() ==> s[k] != '.',
    ensures
        last_dot_at(s) == -1,
    decreases s.len(),
{
    if s.len() == 0 {
    } else {
        assert(forall|k: int| 0 <= k < s.len() - 1 ==> s.drop_last()[k] == s[k]);
        lemma_no_dot(s.drop_last());
    }
}

proof fn lemma_lex_skip(a: Seq<char>, b: Seq<char>, i: int)
    requires
        0 <= i <= a.len(),
        i <= b.len(),
        forall|k: int| 0 <= k < i ==> a[k] as u32 == b[k] as u32,
    ensures
        lex_le(a, b) == lex_le(a.skip(i), b.skip(i)),
    decreases i,
{
    if i == 0 {
        assert(a.skip(0) =~= a);
        assert(b.skip(0) =~= b);
    } else {
        assert(a[0] as u32 == b[0] as u32);
        assert(forall|k: int| 0 <= k < i - 1 ==> a.drop_first()[k] as u32 == b.drop_first()[k]
            as u32);
        lemma_lex_skip(a.drop_first(), b.drop_first(), i - 1);
        assert(a.drop_first().skip(i - 1) =~= a.skip(i));
        assert(b.drop_first().skip(i - 1) =~= b.skip(i));
    }
}

/// The enumeration order is total: of two paths, one precedes the other.
pub proof fn lemma_lex_total(a: Seq<char>, b: Seq<char>)
    ensures
        lex_le(a, b) || lex_le(b, a),
    decreases a.len(),
{
    if a.len() == 0 {
    } else if b.len() == 0 {
    } else if (a[0] as u32) == (b[0] as u32) {
        lemma_lex_total(a.drop_first(), b.drop_first());
    } else {
    }
}

/// The enumeration order is transitive.
pub proof fn lemma_lex_trans(a: Seq<char>, b: Seq<char>, c: Seq<char>)
    requires
        lex_le(a, b),
        lex_le(b, c),
    ensures
        lex_le(a, c),
    decreases a.len(),
{
    if a.len() == 0 {
    } else {
        assert(b.len() > 0);
        assert(c.len() > 0);
        if (a[0] as u32) == (c[0] as u32) {
            assert(a[0] as u32 == b[0] as u32 && b[0] as u32 == c[0] as u32);
            lemma_lex_trans(a.drop_first(), b.drop_first(), c.drop_first());
        } else {
            assert(a[0] as u32 <= b[0] as u32 && b[0] as u32 <= c[0] as u32);
        }
    }
}

/// Whether `a` precedes `b` (or equals it) in the enumeration order.
pub fn str_le(a: &str, b: &str) -> (r: bool)
    ensures
        r == lex_le(a@, b@),
{
    let alen = a.unicode_len();
    let blen = b.unicode_len();
    let mut i: usize = 0;
    loop
        invariant
            0 <= i <= alen,
            i <= blen,
            alen == a@.len(),
            blen == b@.len(),
            forall|k: int| 0 <= k < i ==> a@[k] as u32 == b@[k] as u32,
        decreases alen - i,
    {
        if i >= alen {
            proof {
                lemma_lex_skip(a@, b@, i as int);
                assert(a@.skip(i as int).len() == 0);
            }
            return true;
        }
        if i >= blen {
            proof {
                lemma_lex_skip(a@, b@, i as int);
                assert(b@.skip(i as int).len() == 0);
                assert(a@.skip(i as int).len() > 0);
            }
            return false;
        }
        let ca = a.get_char(i) as u32;
        let cb = b.get_char(i) as u32;
        if ca < cb {
            proof {
                lemma_lex_skip(a@, b@, i as int);
                assert(a@.skip(i as int)[0] == a@[i as int]);
                assert(b@.skip(i as int)[0] == b@[i as int]);
            }
            return true;
        }
        if ca > cb {
            proof {
                lemma_lex_skip(a@, b@, i as int);
                assert(a@.skip(i as int)[0] == a@[i as int]);
                assert(b@.skip(i as int)[0] == b@[i as int]);
            }
            return false;
        }
        i = i + 1;
    }
}

/// Index of the last dot of the name, when the name holds one.
fn last_dot_index(name: &str) -> (r: Option<usize>)
    ensures
        match r {
            Option::Some(d) => 0 <= d < name@.len() && last_dot_at(name@) == d,
            Option::None => last_dot_at(name@) == -1,
        },
{
    let n = name.unicode_len();
    let mut k: usize = n;
    loop
        invariant
            0 <= k <= n,
            n == name@.len(),
            forall|j: int| k <= j < n ==> name@[j] != '.',
        decreases k,
    {
        if k == 0 {
            proof {
                lemma_no_dot(name@);
            }
            return None;
        }
        let c = name.get_char(k - 1);
        if c == '.' {
            proof {
                lemma_last_dot(name@, k - 1 as int);
            }
            return Some(k - 1);
        }
        k = k - 1;
    }
}

/// Case-folded comparison of `s[from..to]` against `t`.
fn eq_ignore_case(s: &str, from: usize, to: usize, t: &str) -> (r: bool)
    requires
        from <= to <= s@.len(),
    ensures
        r == matches_ignore_case(s@.subrange(from as int, to as int), t@),
{
    let ghost sub = s@.subrange(from as int, to as int);
    let tlen = t.unicode_len();
    if to - from != tlen {
        return false;
    }
    let mut i: usize = 0;
    while i < tlen
        invariant
            0 <= i <= tlen,
            to - from == tlen,
            from <= to <= s@.len(),
            tlen == t@.len(),
            sub == s@.subrange(from as int, to as int),
            forall|k: int| 0 <= k < i ==> lower_code(s@[from + k]) == t@[k] as u32,
        decreases tlen - i,
    {
        let code = s.get_char(from + i) as u32;
        let lower = if 65 <= code && code <= 90 {
            code + 32
        } else {
            code
        };
        let ct = t.get_char(i) as u32;
        if lower != ct {
            proof {
                assert(sub[i as int] == s@[from + i]);
                assert(lower == lower_code(sub[i as int]));
            }
            return false;
        }
        i = i + 1;
    }
    proof {
        assert(sub.len() == t@.len());
        assert(forall|k: int| 0 <= k < sub.len() ==> sub[k] == s@[from + k]);
    }
    true
}

/// Whether a file name carries one of the supported image extensions,
/// compared without regard to ASCII case.
pub fn is_image_name(name: &str) -> (r: bool)
    ensures
        r == is_image_ext(name@),
{
    match last_dot_index(name) {
        None => false,
        Some(d) => {
            if d == 0 {
                false
            } else {
                let n = name.unicode_len();
                let r = eq_ignore_case(name, d + 1, n, "jpg") || eq_ignore_case(
                    name,
                    d + 1,
                    n,
                    "jpeg",
                ) || eq_ignore_case(name, d + 1, n, "png") || eq_ignore_case(name, d + 1, n, "bmp")
                    || eq_ignore_case(name, d + 1, n, "gif") || eq_ignore_case(
                    name,
                    d + 1,
                    n,
                    "tiff",
                );
                proof {
                    assert(ext_of(name@) == name@.subrange(d + 1 as int, name@.len() as int));
                }
                r
            }
        },
    }
}

/// The base name a produced output keeps: the part of the file name that
/// precedes its extension.
pub fn file_stem_of(name: &str) -> (r: String)
    ensures
        r@ == stem_of(name@),
{
    match last_dot_index(name) {
        Some(d) => {
            if d > 0 {
                name.substring_char(0, d).to_owned()
            } else {
                name.to_owned()
            }
        },
        None => name.to_owned(),
    }
}

proof fn lemma_push_count(s: Seq<FileEntry>, x: FileEntry, y: FileEntry)
    ensures
        s.push(x).to_multiset().count(y) == s.to_multiset().count(y) + (if y == x {
            1nat
        } else {
            0nat
        }),
{
    broadcast use vstd::seq_lib::group_to_multiset_ensures;

    assert(s.push(x).to_multiset() =~= s.to_multiset().insert(x));
}

proof fn lemma_remove_count(s: Seq<FileEntry>, i: int, y: FileEntry)
    requires
        0 <= i < s.len(),
    ensures
        s.remove(i).to_multiset().count(y) + (if y == s[i] {
            1nat
        } else {
            0nat
        }) == s.to_multiset().count(y),
{
    broadcast use vstd::seq_lib::group_to_multiset_ensures;

    assert(s.remove(i).to_multiset() =~= s.to_multiset().remove(s[i]));
    if y == s[i] {
        assert(s.contains(s[i]));
        assert(s.to_multiset().count(s[i]) > 0);
    }
}

proof fn lemma_empty_count(s: Seq<FileEntry>, y: FileEntry)
    requires
        s.len() == 0,
    ensures
        s.to_multiset().count(y) == 0,
{
    broadcast use vstd::seq_lib::group_to_multiset_ensures;

    assert(!s.contains(y));
}

/// Reduces a directory listing to the image files it holds, sorted by full
/// path ascending: exactly the entries that are regular files with a
/// supported extension survive, each as often as it was listed.
pub fn find_image_files(entries: Vec<FileEntry>) -> (r: Vec<FileEntry>)
    ensures
        forall|k: int| 0 <= k < r@.len() ==> is_image_entry(#[trigger] r@[k]),
        forall|e: FileEntry|
            is_image_entry(e) ==> r@.to_multiset().count(e) == entries@.to_multiset().count(e),
        forall|i: int, j: int| 0 <= i < j < r@.len() ==> lex_le(r@[i].path@, r@[j].path@),
{
    broadcast use vstd::seq_lib::group_to_multiset_ensures;

    let ghost entries0 = entries@;
    let mut v = entries;
    let mut kept: Vec<FileEntry> = Vec::new();
    while v.len() > 0
        invariant
            forall|k: int| 0 <= k < kept@.len() ==> is_image_entry(#[trigger] kept@[k]),
            forall|e: FileEntry|
                is_image_entry(e) ==> kept@.to_multiset().count(e) + v@.to_multiset().count(e)
                    == entries0.to_multiset().count(e),
        decreases v@.len(),
    {
        let ghost v_before = v@;
        let ghost kept_before = kept@;
        let popped = v.pop();
        if let Some(e) = popped {
            let keep = e.is_file && is_image_name(e.name.as_str());
            if keep {
                kept.push(e);
            }
            proof {
                assert(v_before =~= v@.push(e));
                assert forall|x: FileEntry| is_image_entry(x) implies kept@.to_multiset().count(x)
                    + v@.to_multiset().count(x) == entries0.to_multiset().count(x) by {
                    lemma_push_count(v@, e, x);
                    if keep {
                        lemma_push_count(kept_before, e, x);
                    } else {
                        assert(!is_image_entry(e));
                        assert(x != e);
                    }
                }
            }
        } else {
            proof {
                assert(false);
            }
        }
    }
    proof {
        assert forall|x: FileEntry| is_image_entry(x) implies kept@.to_multiset().count(x)
            == entries0.to_multiset().count(x) by {
            lemma_empty_count(v@, x);
        }
    }
    // Selection sort by path: repeatedly move the least remaining entry over.
    let mut rest = kept;
    let mut out: Vec<FileEntry> = Vec::new();
    proof {
        assert forall|x: FileEntry| is_image_entry(x) implies out@.to_multiset().count(x)
            + rest@.to_multiset().count(x) == entries0.to_multiset().count(x) by {
            lemma_empty_count(out@, x);
        }
    }
    while rest.len() > 0
        invariant
            forall|k: int| 0 <= k < out@.len() ==> is_image_entry(#[trigger] out@[k]),
            forall|k: int| 0 <= k < rest@.len() ==> is_image_entry(#[trigger] rest@[k]),
            forall|e: FileEntry|
                is_image_entry(e) ==> out@.to_multiset().count(e) + rest@.to_multiset().count(e)
                    == entries0.to_multiset().count(e),
            forall|i: int, j: int| 0 <= i < j < out@.len() ==> lex_le(out@[i].path@, out@[j].path@),
            forall|i: int, j: int|
                0 <= i < out@.len() && 0 <= j < rest@.len() ==> lex_le(
                    out@[i].path@,
                    rest@[j].path@,
                ),
        decreases rest@.len(),
    {
        let mut m: usize = 0;
        let mut j: usize = 1;
        while j < rest.len()
            invariant
                0 <= m < j <= rest@.len(),
                forall|k: int| 0 <= k < j && k != m ==> lex_le(rest@[m as int].path@, rest@[k].path@),
            decreases rest@.len() - j,
        {
            if !str_le(rest[m].path.as_str(), rest[j].path.as_str()) {
                proof {
                    lemma_lex_total(rest@[m as int].path@, rest@[j as int].path@);
                    assert forall|k: int| 0 <= k < j + 1 && k != j implies lex_le(
                        rest@[j as int].path@,
                        rest@[k].path@,
                    ) by {
                        if k != m {
                            lemma_lex_trans(
                                rest@[j as int].path@,
                                rest@[m as int].path@,
                                rest@[k].path@,
                            );
                        }
                    }
                }
                m = j;
            }
            j = j + 1;
        }
        let ghost rest_before = rest@;
        let ghost out_before = out@;
        let e = rest.remove(m);
        proof {
            assert(e == rest_before[m as int]);
            assert(rest@ =~= rest_before.remove(m as int));
            assert forall|k: int| 0 <= k < rest@.len() implies lex_le(e.path@, rest@[k].path@) by {
                if k < m {
                    assert(rest@[k] == rest_before[k]);
                } else {
                    assert(rest@[k] == rest_before[k + 1]);
                }
            }
        }
        out.push(e);
        proof {
            assert forall|x: FileEntry| is_image_entry(x) implies out@.to_multiset().count(x)
                + rest@.to_multiset().count(x) == entries0.to_multiset().count(x) by {
                lemma_remove_count(rest_before, m as int, x);
                lemma_push_count(out_before, e, x);
            }
        }
    }
    proof {
        assert forall|x: FileEntry| is_image_entry(x) implies out@.to_multiset().count(x)
            == entries0.to_multiset().count(x) by {
            lemma_empty_count(rest@, x);
        }
    }
    out
}

} // verus!
