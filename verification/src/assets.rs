//! The asset registry's selection rules.
//!
//! The caller lists the candidate asset directories and hands in one
//! [`FsEntry`] per directory entry: the file's name and the name of the
//! directory that holds it. The registry keeps the entries with the right
//! extension whose directory is not an archive, takes their stems, and
//! returns them sorted and deduplicated. Sound enumeration falls back to a
//! fixed built-in catalogue when it would otherwise be empty.

use vstd::prelude::*;

use crate::text::{
    lemma_char_eq, lemma_lex_asym, lemma_lex_connex, lemma_lex_irrefl, lemma_lex_trans, lex_lt,
    str_eq, str_lt,
};

verus! {

/// One filesystem directory entry as the registry sees it: the file name
/// (extension included) and the name of its immediate parent directory.
pub struct FsEntry {
    pub name: String,
    pub dir: String,
}

/// The index of the last dot that can start an extension: the last `.` at
/// index one or later (a leading dot hides a file, it starts no extension),
/// or `-1` when there is none. `end` bounds the search.
pub open spec fn last_dot_before(name: Seq<char>, end: int) -> int
    decreases end when end <= name.len()
{
    if end <= 1 {
        -1
    } else if name[end - 1] == '.' {
        end - 1
    } else {
        last_dot_before(name, end - 1)
    }
}

/// The index of the dot starting the extension of `name`, or `-1`.
pub open spec fn last_dot(name: Seq<char>) -> int {
    last_dot_before(name, name.len() as int)
}

/// The file stem: everything before the extension dot, or the whole name.
pub open spec fn stem_of(name: Seq<char>) -> Seq<char> {
    if last_dot(name) < 0 {
        name
    } else {
        name.take(last_dot(name))
    }
}

/// The extension: everything after the extension dot, if there is one.
pub open spec fn ext_of(name: Seq<char>) -> Option<Seq<char>> {
    if last_dot(name) < 0 {
        None
    } else {
        Some(name.skip(last_dot(name) + 1))
    }
}

/// Whether `c` is the letter `l` in either ASCII case; `l` names the lower
/// case letter.
pub open spec fn char_eq_ic(c: char, l: char) -> bool {
    c as u32 == l as u32 || c as u32 + 32 == l as u32
}

/// Whether a directory name is `backup` up to ASCII case: such a directory
/// holds archived variants that enumeration hides.
pub open spec fn is_backup_dir(d: Seq<char>) -> bool {
    d.len() == 6 && char_eq_ic(d[0], 'b') && char_eq_ic(d[1], 'a') && char_eq_ic(d[2], 'c')
        && char_eq_ic(d[3], 'k') && char_eq_ic(d[4], 'u') && char_eq_ic(d[5], 'p')
}

/// Whether one directory entry contributes an asset of extension `ext`.
pub open spec fn entry_valid(name: Seq<char>, dir: Seq<char>, ext: Seq<char>) -> bool {
    ext_of(name) == Some(ext) && !is_backup_dir(dir)
}

/// Whether some entry contributes the stem `s`.
pub open spec fn has_valid_stem(entries: Seq<FsEntry>, ext: Seq<char>, s: Seq<char>) -> bool {
    exists|i: int|
        0 <= i < entries.len() && entry_valid(
            #[trigger] entries[i].name@,
            entries[i].dir@,
            ext,
        ) && stem_of(entries[i].name@) == s
}

/// The views of a vector of strings.
pub open spec fn views(ids: Seq<String>) -> Seq<Seq<char>> {
    ids.map_values(|s: String| s@)
}

/// Whether the listing `v` holds the id `s`.
pub open spec fn contains_id(v: Seq<Seq<char>>, s: Seq<char>) -> bool {
    exists|i: int| 0 <= i < v.len() && #[trigger] v[i] == s
}

/// Strictly ascending in the lexicographic order: sorted and free of
/// duplicates at once.
pub open spec fn strictly_sorted(v: Seq<Seq<char>>) -> bool {
    forall|i: int, j: int| 0 <= i < j < v.len() ==> lex_lt(#[trigger] v[i], #[trigger] v[j])
}

/// Two strictly sorted listings with the same ids are the same listing:
/// enumeration has one canonical result, whatever order the filesystem
/// yielded the entries in.
pub proof fn lemma_sorted_distinct_unique(x: Seq<Seq<char>>, y: Seq<Seq<char>>)
    requires
        strictly_sorted(x),
        strictly_sorted(y),
        forall|s: Seq<char>| contains_id(x, s) <==> contains_id(y, s),
    ensures
        x == y,
    decreases x.len(),
{
    if x.len() == 0 {
        if y.len() > 0 {
            assert(contains_id(y, y[0]));
        }
        assert(x =~= y);
    } else {
        assert(contains_id(x, x[0]));
        assert(contains_id(y, x[0]));
        let j = choose|j: int| 0 <= j < y.len() && y[j] == x[0];
        if j > 0 {
            assert(contains_id(y, y[0]));
            assert(contains_id(x, y[0]));
            let i = choose|i: int| 0 <= i < x.len() && x[i] == y[0];
            if i > 0 {
                assert(lex_lt(x[0], x[i]));
                assert(lex_lt(y[0], y[j]));
                lemma_lex_asym(x[0], y[0]);
                assert(false);
            }
            assert(x[0] == y[0]);
        }
        assert(x[0] == y[0]);
        let xt = x.drop_first();
        let yt = y.drop_first();
        assert forall|s: Seq<char>| contains_id(xt, s) implies contains_id(yt, s) by {
            let i = choose|i: int| 0 <= i < xt.len() && xt[i] == s;
            assert(x[i + 1] == s);
            assert(contains_id(x, s));
            assert(contains_id(y, s));
            let k = choose|k: int| 0 <= k < y.len() && y[k] == s;
            if k == 0 {
                assert(lex_lt(x[0], x[i + 1]));
                lemma_lex_irrefl(x[0]);
                assert(false);
            }
            assert(yt[k - 1] == s);
        }
        assert forall|s: Seq<char>| contains_id(yt, s) implies contains_id(xt, s) by {
            let i = choose|i: int| 0 <= i < yt.len() && yt[i] == s;
            assert(y[i + 1] == s);
            assert(contains_id(y, s));
            assert(contains_id(x, s));
            let k = choose|k: int| 0 <= k < x.len() && x[k] == s;
            if k == 0 {
                assert(lex_lt(y[0], y[i + 1]));
                lemma_lex_irrefl(y[0]);
                assert(false);
            }
            assert(xt[k - 1] == s);
        }
        assert forall|i: int, j2: int| 0 <= i < j2 < xt.len() implies lex_lt(
            #[trigger] xt[i],
            #[trigger] xt[j2],
        ) by {
            assert(lex_lt(x[i + 1], x[j2 + 1]));
        }
        assert forall|i: int, j2: int| 0 <= i < j2 < yt.len() implies lex_lt(
            #[trigger] yt[i],
            #[trigger] yt[j2],
        ) by {
            assert(lex_lt(y[i + 1], y[j2 + 1]));
        }
        lemma_sorted_distinct_unique(xt, yt);
        assert(x =~= seq![x[0]] + xt);
        assert(y =~= seq![y[0]] + yt);
    }
}

/// The index of the extension dot of `name`, if any.
#[verifier::loop_isolation(false)]
fn find_last_dot(name: &str) -> (r: Option<usize>)
    ensures
        r is None <==> last_dot(name@) < 0,
        r is Some ==> r->0 as int == last_dot(name@) && 1 <= r->0 && (r->0 as int)
            < name@.len(),
{
    let n = name.unicode_len();
    let mut j = n;
    loop
        invariant
            j <= n,
            n == name@.len(),
            last_dot(name@) == last_dot_before(name@, j as int),
        decreases j,
    {
        if j <= 1 {
            return None;
        }
        let c = name.get_char(j - 1);
        if c as u32 == 46 {
            proof {
                lemma_char_eq(c, '.');
            }
            return Some(j - 1);
        }
        proof {
            lemma_char_eq(c, '.');
        }
        j = j - 1;
    }
}

/// Whether `name` carries exactly the extension `ext`.
fn has_ext(name: &str, ext: &str) -> (r: bool)
    ensures
        r == (ext_of(name@) == Some(ext@)),
{
    match find_last_dot(name) {
        None => false,
        Some(ld) => {
            let n = name.unicode_len();
            let tail = name.substring_char(ld + 1, n);
            let r = str_eq(tail, ext);
            proof {
                assert(name@.skip(last_dot(name@) + 1) =~= name@.subrange(
                    ld + 1 as int,
                    n as int,
                ));
            }
            r
        },
    }
}

/// The stem of `name` as a fresh string.
fn stem_string(name: &str) -> (r: String)
    ensures
        r@ == stem_of(name@),
{
    match find_last_dot(name) {
        None => name.to_owned(),
        Some(ld) => {
            let prefix = name.substring_char(0, ld);
            proof {
                assert(name@.take(last_dot(name@)) =~= name@.subrange(0, ld as int));
            }
            prefix.to_owned()
        },
    }
}

/// Whether `dir` is named `backup` up to ASCII case.
fn is_backup(dir: &str) -> (r: bool)
    ensures
        r == is_backup_dir(dir@),
{
    let n = dir.unicode_len();
    if n != 6 {
        return false;
    }
    let c0 = dir.get_char(0);
    let c1 = dir.get_char(1);
    let c2 = dir.get_char(2);
    let c3 = dir.get_char(3);
    let c4 = dir.get_char(4);
    let c5 = dir.get_char(5);
    (c0 as u32 == 'b' as u32 || c0 as u32 + 32 == 'b' as u32) && (c1 as u32 == 'a' as u32 || c1
        as u32 + 32 == 'a' as u32) && (c2 as u32 == 'c' as u32 || c2 as u32 + 32 == 'c' as u32) && (
    c3 as u32 == 'k' as u32 || c3 as u32 + 32 == 'k' as u32) && (c4 as u32 == 'u' as u32 || c4
        as u32 + 32 == 'u' as u32) && (c5 as u32 == 'p' as u32 || c5 as u32 + 32 == 'p' as u32)
}

/// Inserts `stem` into the strictly sorted listing `ids`, keeping it
/// strictly sorted; a stem already present is left alone.
#[verifier::loop_isolation(false)]
fn insert_sorted(ids: &mut Vec<String>, stem: String)
    requires
        strictly_sorted(views(old(ids)@)),
    ensures
        strictly_sorted(views(final(ids)@)),
        forall|s: Seq<char>|
            contains_id(views(final(ids)@), s) <==> (contains_id(views(old(ids)@), s) || s
                == stem@),
{
    let ghost old_views = views(ids@);
    let mut j: usize = 0;
    loop
        invariant
            j <= ids@.len(),
            ids@ == old(ids)@,
            forall|m: int| 0 <= m < j ==> lex_lt(#[trigger] views(ids@)[m], stem@),
        decreases ids@.len() - j,
    {
        if j == ids.len() {
            break;
        }
        proof {
            assert(views(ids@)[j as int] == ids@[j as int]@);
        }
        if str_lt(&ids[j], stem.as_str()) {
            j = j + 1;
        } else {
            break;
        }
    }
    if j < ids.len() {
        proof {
            assert(views(ids@)[j as int] == ids@[j as int]@);
        }
        if str_eq(&ids[j], stem.as_str()) {
            proof {
                assert(contains_id(views(ids@), stem@)) by {
                    assert(views(ids@)[j as int] == stem@);
                }
            }
            return ;
        }
        proof {
            lemma_lex_connex(views(ids@)[j as int], stem@);
            assert(lex_lt(stem@, views(ids@)[j as int]));
        }
    }
    let ghost sorted_pos: int = j as int;
    ids.insert(j, stem);
    proof {
        let new_views = views(ids@);
        assert(new_views.len() == old_views.len() + 1);
        assert forall|m: int| 0 <= m < new_views.len() implies #[trigger] new_views[m] == (if m
            < sorted_pos {
            old_views[m]
        } else if m == sorted_pos {
            stem@
        } else {
            old_views[m - 1]
        }) by {
            if m < sorted_pos {
                assert(ids@[m] == old(ids)@[m]);
            } else if m > sorted_pos {
                assert(ids@[m] == old(ids)@[m - 1]);
            }
        }
        assert forall|a: int, b: int| 0 <= a < b < new_views.len() implies lex_lt(
            #[trigger] new_views[a],
            #[trigger] new_views[b],
        ) by {
            if a < sorted_pos && b < sorted_pos {
            } else if a < sorted_pos && b == sorted_pos {
            } else if a == sorted_pos && b > sorted_pos {
                if b - 1 > sorted_pos {
                    lemma_lex_trans(stem@, old_views[sorted_pos], old_views[b - 1]);
                }
            } else if a < sorted_pos && b > sorted_pos {
                if b - 1 > a {
                } else {
                    assert(b - 1 == a);
                    lemma_lex_trans(old_views[a], stem@, old_views[b - 1]);
                }
            }
        }
        assert forall|s: Seq<char>|
            contains_id(new_views, s) <==> (contains_id(old_views, s) || s == stem@) by {
            if contains_id(new_views, s) {
                let m = choose|m: int| 0 <= m < new_views.len() && new_views[m] == s;
                if m < sorted_pos {
                    assert(old_views[m] == s);
                    assert(contains_id(old_views, s));
                } else if m > sorted_pos {
                    assert(old_views[m - 1] == s);
                    assert(contains_id(old_views, s));
                }
            }
            if contains_id(old_views, s) {
                let m = choose|m: int| 0 <= m < old_views.len() && old_views[m] == s;
                if m < sorted_pos {
                    assert(new_views[m] == s);
                } else {
                    assert(new_views[m + 1] == s);
                }
                assert(contains_id(new_views, s));
            }
            if s == stem@ {
                assert(new_views[sorted_pos] == s);
                assert(contains_id(new_views, s));
            }
        }
    }
}

/// The sorted, deduplicated stems of the entries that carry extension
/// `ext` and do not sit in an archive directory.
#[verifier::loop_isolation(false)]
fn collect_ids(entries: &Vec<FsEntry>, ext: &str) -> (ids: Vec<String>)
    ensures
        strictly_sorted(views(ids@)),
        forall|s: Seq<char>| contains_id(views(ids@), s) <==> has_valid_stem(entries@, ext@, s),
{
    let mut ids: Vec<String> = Vec::new();
    let mut k: usize = 0;
    proof {
        assert(views(ids@).len() == 0);
    }
    loop
        invariant
            k <= entries@.len(),
            strictly_sorted(views(ids@)),
            forall|s: Seq<char>|
                contains_id(views(ids@), s) <==> has_valid_stem(
                    entries@.subrange(0, k as int),
                    ext@,
                    s,
                ),
        decreases entries@.len() - k,
    {
        if k == entries.len() {
            proof {
                assert(entries@.subrange(0, k as int) =~= entries@);
            }
            return ids;
        }
        let ghost prefix = entries@.subrange(0, k as int);
        let ghost prefix2 = entries@.subrange(0, k + 1);
        proof {
            assert forall|i: int| 0 <= i < k + 1 implies #[trigger] prefix2[i] == entries@[i] by {}
            assert forall|i: int| 0 <= i < k implies #[trigger] prefix[i] == entries@[i] by {}
        }
        let entry = &entries[k];
        if has_ext(entry.name.as_str(), ext) && !is_backup(entry.dir.as_str()) {
            let stem = stem_string(entry.name.as_str());
            let ghost stem_view = stem@;
            insert_sorted(&mut ids, stem);
            proof {
                assert forall|s: Seq<char>|
                    contains_id(views(ids@), s) <==> has_valid_stem(prefix2, ext@, s) by {
                    if has_valid_stem(prefix2, ext@, s) {
                        let i = choose|i: int|
                            0 <= i < prefix2.len() && entry_valid(
                                #[trigger] prefix2[i].name@,
                                prefix2[i].dir@,
                                ext@,
                            ) && stem_of(prefix2[i].name@) == s;
                        if i < k {
                            assert(has_valid_stem(prefix, ext@, s)) by {
                                assert(entry_valid(prefix[i].name@, prefix[i].dir@, ext@)
                                    && stem_of(prefix[i].name@) == s);
                            }
                        } else {
                            assert(s == stem_view);
                        }
                    }
                    if contains_id(views(ids@), s) {
                        if s == stem_view {
                            assert(entry_valid(prefix2[k as int].name@, prefix2[k as int].dir@, ext@)
                                && stem_of(prefix2[k as int].name@) == s);
                        } else {
                            assert(has_valid_stem(prefix, ext@, s));
                            let i = choose|i: int|
                                0 <= i < prefix.len() && entry_valid(
                                    #[trigger] prefix[i].name@,
                                    prefix[i].dir@,
                                    ext@,
                                ) && stem_of(prefix[i].name@) == s;
                            assert(entry_valid(prefix2[i].name@, prefix2[i].dir@, ext@) && stem_of(
                                prefix2[i].name@,
                            ) == s);
                        }
                    }
                }
            }
        } else {
            proof {
                assert forall|s: Seq<char>|
                    has_valid_stem(prefix2, ext@, s) <==> has_valid_stem(prefix, ext@, s) by {
                    if has_valid_stem(prefix2, ext@, s) {
                        let i = choose|i: int|
                            0 <= i < prefix2.len() && entry_valid(
                                #[trigger] prefix2[i].name@,
                                prefix2[i].dir@,
                                ext@,
                            ) && stem_of(prefix2[i].name@) == s;
                        if i < k {
                            assert(entry_valid(prefix[i].name@, prefix[i].dir@, ext@) && stem_of(
                                prefix[i].name@,
                            ) == s);
                        } else {
                            assert(!entry_valid(entries@[k as int].name@, entries@[k as int].dir@, ext@));
                            assert(false);
                        }
                    }
                    if has_valid_stem(prefix, ext@, s) {
                        let i = choose|i: int|
                            0 <= i < prefix.len() && entry_valid(
                                #[trigger] prefix[i].name@,
                                prefix[i].dir@,
                                ext@,
                            ) && stem_of(prefix[i].name@) == s;
                        assert(entry_valid(prefix2[i].name@, prefix2[i].dir@, ext@) && stem_of(
                            prefix2[i].name@,
                        ) == s);
                    }
                }
            }
        }
        k = k + 1;
    }
}

/// The sorted, deduplicated icon ids among the given directory entries: the
/// stems of the `png` files outside `backup` directories.
pub fn list_icon_ids(entries: &Vec<FsEntry>) -> (ids: Vec<String>)
    ensures
        strictly_sorted(views(ids@)),
        forall|s: Seq<char>| contains_id(views(ids@), s) <==> has_valid_stem(entries@, "png"@, s),
{
    collect_ids(entries, "png")
}

/// The fixed built-in sound catalogue, in its sorted order. It backs the
/// enumeration whenever no sound file at all is found, so the `sound` field
/// always has at least one valid choice.
pub open spec fn builtin_sound_ids() -> Seq<Seq<char>> {
    seq!["alarm"@, "default"@, "im"@, "incoming_call"@, "mail"@, "reminder"@, "sms"@]
}

/// Consecutive ascent gives strict ascent everywhere.
pub proof fn lemma_consecutive_sorted(v: Seq<Seq<char>>)
    requires
        forall|i: int| 0 <= i < v.len() - 1 ==> lex_lt(#[trigger] v[i], v[i + 1]),
    ensures
        strictly_sorted(v),
{
    assert forall|i: int, j: int| 0 <= i < j < v.len() implies lex_lt(
        #[trigger] v[i],
        #[trigger] v[j],
    ) by {
        lemma_lex_lt_span(v, i, j);
    }
}

proof fn lemma_lex_lt_span(v: Seq<Seq<char>>, i: int, j: int)
    requires
        forall|m: int| 0 <= m < v.len() - 1 ==> lex_lt(#[trigger] v[m], v[m + 1]),
        0 <= i < j < v.len(),
    ensures
        lex_lt(v[i], v[j]),
    decreases j - i,
{
    if j > i + 1 {
        lemma_lex_lt_span(v, i, j - 1);
        lemma_lex_trans(v[i], v[j - 1], v[j]);
    }
}

/// The built-in catalogue is strictly sorted.
pub proof fn lemma_builtin_sorted()
    ensures
        strictly_sorted(builtin_sound_ids()),
{
    reveal_strlit("alarm");
    reveal_strlit("default");
    reveal_strlit("im");
    reveal_strlit("incoming_call");
    reveal_strlit("mail");
    reveal_strlit("reminder");
    reveal_strlit("sms");
    let v = builtin_sound_ids();
    assert(lex_lt(v[0], v[1]));
    assert(lex_lt(v[1], v[2]));
    assert(lex_lt(v[2], v[3])) by {
        let a = "im"@;
        let b = "incoming_call"@;
        assert(a[0] == 'i' && b[0] == 'i');
        assert(a.drop_first()[0] == 'm');
        assert(b.drop_first()[0] == 'n');
        assert(lex_lt(a.drop_first(), b.drop_first()));
    }
    assert(lex_lt(v[3], v[4]));
    assert(lex_lt(v[4], v[5]));
    assert(lex_lt(v[5], v[6]));
    lemma_consecutive_sorted(v);
}

/// The sorted, deduplicated sound ids among the given directory entries:
/// the stems of the `wav` files outside `backup` directories, or, when no
/// such file exists at all, exactly the built-in catalogue.
///
/// The last clause is the converse: when some sound file exists and the
/// found stems are not exactly the built-in ids, the result is not the
/// built-in catalogue — the fallback appears precisely when nothing was
/// found.
pub fn list_sound_ids(entries: &Vec<FsEntry>) -> (ids: Vec<String>)
    ensures
        strictly_sorted(views(ids@)),
        (forall|s: Seq<char>| !has_valid_stem(entries@, "wav"@, s)) ==> views(ids@)
            == builtin_sound_ids(),
        (exists|s: Seq<char>| has_valid_stem(entries@, "wav"@, s)) ==> (forall|s: Seq<char>|
            contains_id(views(ids@), s) <==> has_valid_stem(entries@, "wav"@, s)),
        ((exists|s: Seq<char>| has_valid_stem(entries@, "wav"@, s)) && (exists|s1: Seq<char>|
            has_valid_stem(entries@, "wav"@, s1) != contains_id(builtin_sound_ids(), s1)))
            ==> views(ids@) != builtin_sound_ids(),
{
    let found = collect_ids(entries, "wav");
    if found.len() == 0 {
        proof {
            assert forall|s: Seq<char>| !has_valid_stem(entries@, "wav"@, s) by {
                if has_valid_stem(entries@, "wav"@, s) {
                    assert(contains_id(views(found@), s));
                    let i = choose|i: int|
                        0 <= i < views(found@).len() && views(found@)[i] == s;
                    assert(false);
                }
            }
        }
        let mut ids: Vec<String> = Vec::new();
        ids.push("alarm".to_owned());
        ids.push("default".to_owned());
        ids.push("im".to_owned());
        ids.push("incoming_call".to_owned());
        ids.push("mail".to_owned());
        ids.push("reminder".to_owned());
        ids.push("sms".to_owned());
        proof {
            assert(views(ids@) =~= builtin_sound_ids()) by {
                assert(views(ids@).len() == 7);
                assert(views(ids@)[0] == "alarm"@);
                assert(views(ids@)[1] == "default"@);
                assert(views(ids@)[2] == "im"@);
                assert(views(ids@)[3] == "incoming_call"@);
                assert(views(ids@)[4] == "mail"@);
                assert(views(ids@)[5] == "reminder"@);
                assert(views(ids@)[6] == "sms"@);
            }
            lemma_builtin_sorted();
        }
        ids
    } else {
        proof {
            assert(views(found@).len() > 0);
            assert(contains_id(views(found@), views(found@)[0]));
            assert(has_valid_stem(entries@, "wav"@, views(found@)[0]));
            if exists|s1: Seq<char>|
                has_valid_stem(entries@, "wav"@, s1) != contains_id(builtin_sound_ids(), s1) {
                let s1 = choose|s1: Seq<char>|
                    has_valid_stem(entries@, "wav"@, s1) != contains_id(builtin_sound_ids(), s1);
                assert(contains_id(views(found@), s1) != contains_id(builtin_sound_ids(), s1));
                assert(views(found@) != builtin_sound_ids());
            }
        }
        found
    }
}

} // verus!
