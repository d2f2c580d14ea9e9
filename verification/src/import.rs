//! Importing mods: the file manifest of an archive, option folders (sub-mods), recognized
//! mod files, and staging names for loose files.
use vstd::prelude::*;

use crate::paths::{extension, file_stem, path_extension, path_file_stem};
use crate::text::{
    ascii_lower_seq, chars_of, decimal, ends_with, has_prefix, has_suffix, push_all, starts_with, string_of,
    is_ascii_text, to_lowercase, u64_text, unicode_lowercase,
};

verus! {

/// The text of each string.
pub open spec fn texts(v: Seq<String>) -> Seq<Seq<char>> {
    v.map_values(|s: String| s@)
}

/// The first `/`-separated segment of a path (the whole path when it has no `/`).
pub open spec fn first_segment(p: Seq<char>) -> Seq<char>
    decreases p.len(),
{
    if p.len() == 0 {
        p
    } else if p[0] == '/' {
        Seq::empty()
    } else {
        seq![p[0]] + first_segment(p.drop_first())
    }
}

/// What follows the first `/` of a path, if it has one.
pub open spec fn after_first_slash(p: Seq<char>) -> Option<Seq<char>>
    decreases p.len(),
{
    if p.len() == 0 {
        None
    } else if p[0] == '/' {
        Some(p.drop_first())
    } else {
        after_first_slash(p.drop_first())
    }
}

/// Whether a top-level folder name marks an option folder: it starts with `Option_` or
/// `option_`.
pub open spec fn is_option_folder(name: Seq<char>) -> bool {
    has_prefix(name, "Option_"@) || has_prefix(name, "option_"@)
}

/// A folder name marks an option folder exactly when its first seven characters are
/// `Option_` or `option_`: the `O` may be of either case, the rest is as written, and the
/// underscore is required (so `optional`, `options` or `Option` are ordinary folders).
pub proof fn lemma_option_folder_names(name: Seq<char>)
    ensures
        is_option_folder(name) <==> {
            &&& name.len() >= 7
            &&& name[0] == 'O' || name[0] == 'o'
            &&& name[1] == 'p' && name[2] == 't' && name[3] == 'i' && name[4] == 'o' && name[5] == 'n'
            &&& name[6] == '_'
        },
{
    reveal_strlit("Option_");
    reveal_strlit("option_");
    let big = "Option_"@;
    let small = "option_"@;
    if name.len() >= 7 {
        let head = name.subrange(0, 7);
        if (name[0] == 'O' || name[0] == 'o') && name[1] == 'p' && name[2] == 't' && name[3] == 'i'
            && name[4] == 'o' && name[5] == 'n' && name[6] == '_' {
            if name[0] == 'O' {
                assert(head =~= big);
            } else {
                assert(head =~= small);
            }
        }
        if has_prefix(name, big) {
            assert(head[0] == big[0] && head[6] == big[6]);
            assert(head[1] == big[1] && head[2] == big[2] && head[3] == big[3] && head[4] == big[4] && head[5] == big[5]);
        }
        if has_prefix(name, small) {
            assert(head[0] == small[0] && head[6] == small[6]);
            assert(head[1] == small[1] && head[2] == small[2] && head[3] == small[3] && head[4] == small[4] && head[5] == small[5]);
        }
    }
}

/// A manifest path stays among the parent's files unless its first segment names an option
/// folder and a `/` follows it: a path in an ordinary folder such as `optional/` or
/// `options/`, or at the archive's root, belongs to the parent.
pub proof fn lemma_ordinary_folders_stay_with_parent(paths: Seq<Seq<char>>, i: int)
    requires
        0 <= i < paths.len(),
        !is_option_folder(first_segment(paths[i])) || after_first_slash(paths[i]) is None,
    ensures
        main_paths(paths).contains(paths[i]),
    decreases paths.len(),
{
    if i == paths.len() - 1 {
        assert(!in_option_folder(paths.last()));
        assert(main_paths(paths).last() == paths[i]);
    } else {
        let d = paths.drop_last();
        assert(d[i] == paths[i]);
        lemma_ordinary_folders_stay_with_parent(d, i);
        let k = choose|k: int| 0 <= k < main_paths(d).len() && main_paths(d)[k] == paths[i];
        if !in_option_folder(paths.last()) {
            assert(main_paths(paths)[k] == main_paths(d)[k]);
        }
    }
}

/// Whether a manifest path lies in an option folder: it has a `/`, and the segment before
/// it names an option folder. A file at the archive's root is never in an option folder,
/// whatever its name.
pub open spec fn in_option_folder(p: Seq<char>) -> bool {
    after_first_slash(p) is Some && is_option_folder(first_segment(p))
}

/// A path within its option folder: what follows the first `/` (the whole path when there is
/// no `/`).
pub open spec fn path_in_folder(p: Seq<char>) -> Seq<char> {
    match after_first_slash(p) {
        Some(rest) => rest,
        None => p,
    }
}

/// The manifest paths that belong to the parent mod (not in an option folder), in order.
pub open spec fn main_paths(paths: Seq<Seq<char>>) -> Seq<Seq<char>>
    decreases paths.len(),
{
    if paths.len() == 0 {
        Seq::empty()
    } else if in_option_folder(paths.last()) {
        main_paths(paths.drop_last())
    } else {
        main_paths(paths.drop_last()).push(paths.last())
    }
}

/// The paths, within the folder, of the files of option folder `folder`, in manifest order.
pub open spec fn folder_files(paths: Seq<Seq<char>>, folder: Seq<char>) -> Seq<Seq<char>>
    decreases paths.len(),
{
    if paths.len() == 0 {
        Seq::empty()
    } else if in_option_folder(paths.last()) && first_segment(paths.last()) == folder {
        folder_files(paths.drop_last(), folder).push(path_in_folder(paths.last()))
    } else {
        folder_files(paths.drop_last(), folder)
    }
}

/// An option folder of an archive and the paths of its files within the folder.
#[derive(Debug, Clone)]
pub struct OptionFolder {
    pub folder_name: String,
    pub files: Vec<String>,
}

proof fn lemma_split(p: Seq<char>, k: int)
    requires
        0 <= k <= p.len(),
        forall|j: int| 0 <= j < k ==> p[j] != '/',
        k == p.len() || p[k] == '/',
    ensures
        first_segment(p) == p.take(k),
        after_first_slash(p) == (if k < p.len() { Some(p.skip(k + 1)) } else { None::<Seq<char>> }),
    decreases k,
{
    if k == 0 {
        if p.len() == 0 {
            assert(p.take(0) =~= p);
        } else {
            assert(p.take(0) =~= Seq::<char>::empty());
            assert(p.drop_first() =~= p.skip(1));
        }
    } else {
        let t = p.drop_first();
        assert forall|j: int| 0 <= j < k - 1 implies t[j] != '/' by {
            assert(t[j] == p[j + 1]);
        }
        if k < p.len() {
            assert(t[k - 1] == p[k]);
        }
        lemma_split(t, k - 1);
        assert(seq![p[0]] + t.take(k - 1) =~= p.take(k));
        if k < p.len() {
            assert(t.skip(k) =~= p.skip(k + 1));
        }
    }
}

/// Splits a manifest path into its first segment and its path within that folder, and
/// tells whether the path has a `/` at all.
pub fn split_first_segment(path: &str) -> (r: (String, String, bool))
    ensures
        r.0@ == first_segment(path@),
        r.1@ == path_in_folder(path@),
        r.2 == after_first_slash(path@) is Some,
{
    let cs = chars_of(path);
    let n = cs.len();
    let mut k: usize = 0;
    while k < n && cs[k] != '/'
        invariant
            n == cs@.len(),
            k <= n,
            forall|j: int| 0 <= j < k ==> cs@[j] != '/',
        decreases n - k,
    {
        k = k + 1;
    }
    proof {
        lemma_split(cs@, k as int);
    }
    let mut first: Vec<char> = Vec::new();
    for i in 0..k
        invariant
            k <= n,
            n == cs@.len(),
            first@ == cs@.take(i as int),
    {
        first.push(cs[i]);
        assert(cs@.take(i + 1) =~= cs@.take(i as int).push(cs@[i as int]));
    }
    let inner = if k < n {
        let mut rest: Vec<char> = Vec::new();
        let mut i = k + 1;
        while i < n
            invariant
                k < i <= n,
                n == cs@.len(),
                rest@ == cs@.subrange(k + 1, i as int),
            decreases n - i,
        {
            rest.push(cs[i]);
            assert(cs@.subrange(k + 1, i + 1) =~= cs@.subrange(k + 1, i as int).push(cs@[i as int]));
            i = i + 1;
        }
        assert(cs@.subrange(k + 1, n as int) =~= cs@.skip(k + 1));
        string_of(&rest)
    } else {
        path.to_string()
    };
    (string_of(&first), inner, k < n)
}

/// Whether a folder name marks an option folder (see `is_option_folder`).
pub fn is_option_folder_name(name: &str) -> (r: bool)
    ensures
        r == is_option_folder(name@),
{
    let cs = chars_of(name);
    starts_with(&cs, &chars_of("Option_")) || starts_with(&cs, &chars_of("option_"))
}

fn contains_text(v: &Vec<String>, s: &String) -> (r: bool)
    ensures
        r == texts(v@).contains(s@),
{
    let n = v.len();
    for i in 0..n
        invariant
            n == v@.len(),
            forall|j: int| 0 <= j < i ==> v@[j]@ != s@,
    {
        if v[i] == *s {
            assert(texts(v@)[i as int] == s@);
            return true;
        }
    }
    assert forall|j: int| 0 <= j < texts(v@).len() implies texts(v@)[j] != s@ by {
        assert(texts(v@)[j] == v@[j]@);
    }
    false
}

/// Splits an archive's manifest into the files of the parent mod and the option folders.
/// Files inside `Option_*`/`option_*` top-level folders belong only to that folder's
/// sub-mod, not to the parent; a file at the archive's root belongs to the parent, whatever
/// its name. Each option folder appears once, with the paths of its files
/// within the folder, in manifest order. No file is lost or counted twice: the parent files
/// and the option folders' files together are as many as the manifest's.
pub fn partition_files(paths: &[String]) -> (r: (Vec<String>, Vec<OptionFolder>))
    ensures
        texts(r.0@) == main_paths(texts(paths@)),
        forall|i: int| 0 <= i < r.1@.len() ==> {
            let g = #[trigger] r.1@[i];
            &&& is_option_folder(g.folder_name@)
            &&& texts(g.files@) == folder_files(texts(paths@), g.folder_name@)
            &&& g.files@.len() > 0
        },
        forall|i: int, j: int| 0 <= i < r.1@.len() && 0 <= j < r.1@.len() && i != j ==>
            r.1@[i].folder_name@ != r.1@[j].folder_name@,
        forall|i: int| 0 <= i < paths@.len() && in_option_folder(#[trigger] paths@[i]@) ==>
            exists|j: int| 0 <= j < r.1@.len() && r.1@[j].folder_name@ == first_segment(paths@[i]@),
        r.0@.len() + total_files(r.1@) == paths@.len(),
{
    let n = paths.len();
    let ghost ps = texts(paths@);
    let mut main: Vec<String> = Vec::new();
    let mut names: Vec<String> = Vec::new();
    for i in 0..n
        invariant
            n == paths@.len(),
            ps == texts(paths@),
            texts(main@) == main_paths(ps.take(i as int)),
            forall|a: int| 0 <= a < names@.len() ==> is_option_folder(#[trigger] names@[a]@),
            forall|a: int| 0 <= a < names@.len() ==> folder_files(ps.take(i as int), #[trigger] names@[a]@).len() > 0,
            forall|a: int, b: int| 0 <= a < names@.len() && 0 <= b < names@.len() && a != b ==>
                names@[a]@ != names@[b]@,
            forall|a: int| 0 <= a < i && in_option_folder(#[trigger] paths@[a]@) ==>
                texts(names@).contains(first_segment(paths@[a]@)),
    {
        let ghost pre = ps.take(i as int);
        let ghost post = ps.take(i + 1);
        assert(post.drop_last() =~= pre);
        assert(post.last() == paths@[i as int]@);
        let (first, _inner, has_slash) = split_first_segment(paths[i].as_str());
        let ghost old_names = names@;
        if has_slash && is_option_folder_name(first.as_str()) {
            if !contains_text(&names, &first) {
                names.push(first);
                assert(texts(names@) =~= texts(old_names).push(first_segment(paths@[i as int]@)));
                assert forall|a: int, b: int| 0 <= a < names@.len() && 0 <= b < names@.len() && a != b
                    implies names@[a]@ != names@[b]@ by {
                    if a == old_names.len() {
                        assert(names@[b] == old_names[b]);
                        assert(texts(old_names)[b] == old_names[b]@);
                    } else if b == old_names.len() {
                        assert(names@[a] == old_names[a]);
                        assert(texts(old_names)[a] == old_names[a]@);
                    } else {
                        assert(names@[a] == old_names[a] && names@[b] == old_names[b]);
                    }
                }
            }
        } else {
            let ghost old_main = main@;
            main.push(paths[i].clone());
            assert(texts(main@) =~= texts(old_main).push(paths@[i as int]@));
        }
        assert forall|a: int| 0 <= a < names@.len() implies folder_files(post, #[trigger] names@[a]@).len() > 0 by {
            if a < old_names.len() {
                assert(names@[a] == old_names[a]);
                let f = names@[a]@;
                if in_option_folder(post.last()) && first_segment(post.last()) == f {
                } else {
                    assert(folder_files(post, f) == folder_files(pre, f));
                }
            }
        }
        assert forall|a: int| 0 <= a < i + 1 && in_option_folder(#[trigger] paths@[a]@) implies
            texts(names@).contains(first_segment(paths@[a]@)) by {
            if a < i {
                let k = choose|k: int| 0 <= k < texts(old_names).len() && texts(old_names)[k] == first_segment(paths@[a]@);
                assert(names@[k] == old_names[k]);
                assert(texts(names@)[k] == first_segment(paths@[a]@));
            } else {
                if texts(old_names).contains(first_segment(paths@[a]@)) {
                    let k = choose|k: int| 0 <= k < texts(old_names).len() && texts(old_names)[k] == first_segment(paths@[a]@);
                    assert(names@[k] == old_names[k]);
                    assert(texts(names@)[k] == first_segment(paths@[a]@));
                } else {
                    assert(texts(names@)[names@.len() - 1] == first_segment(paths@[a]@));
                }
            }
        }
    }
    assert(ps.take(n as int) =~= ps);
    let mut groups: Vec<OptionFolder> = Vec::new();
    let m = names.len();
    for j in 0..m
        invariant
            n == paths@.len(),
            m == names@.len(),
            ps == texts(paths@),
            groups@.len() == j,
            forall|a: int| 0 <= a < names@.len() ==> is_option_folder(#[trigger] names@[a]@),
            forall|a: int| 0 <= a < names@.len() ==> folder_files(ps, #[trigger] names@[a]@).len() > 0,
            forall|a: int| 0 <= a < n && in_option_folder(#[trigger] paths@[a]@) ==>
                texts(names@).contains(first_segment(paths@[a]@)),
            forall|a: int| 0 <= a < j ==> (#[trigger] groups@[a]).folder_name@ == names@[a]@,
            forall|a: int| 0 <= a < j ==> texts((#[trigger] groups@[a]).files@) == folder_files(ps, names@[a]@),
    {
        let name = &names[j];
        let mut files: Vec<String> = Vec::new();
        for i in 0..n
            invariant
                n == paths@.len(),
                ps == texts(paths@),
                texts(files@) == folder_files(ps.take(i as int), name@),
        {
            let ghost pre = ps.take(i as int);
            let ghost post = ps.take(i + 1);
            assert(post.drop_last() =~= pre);
            assert(post.last() == paths@[i as int]@);
            let (first, inner, has_slash) = split_first_segment(paths[i].as_str());
            if has_slash && is_option_folder_name(first.as_str()) && first == *name {
                let ghost old_files = files@;
                files.push(inner);
                assert(texts(files@) =~= texts(old_files).push(path_in_folder(paths@[i as int]@)));
            }
        }
        assert(ps.take(n as int) =~= ps);
        groups.push(OptionFolder { folder_name: name.clone(), files });
    }
    assert forall|i: int| 0 <= i < paths@.len() && in_option_folder(#[trigger] paths@[i]@) implies
        exists|j: int| 0 <= j < groups@.len() && groups@[j].folder_name@ == first_segment(paths@[i]@) by {
        let k = choose|k: int| 0 <= k < texts(names@).len() && texts(names@)[k] == first_segment(paths@[i]@);
        assert(texts(names@)[k] == names@[k]@);
        assert(groups@[k].folder_name@ == names@[k]@);
    }
    proof {
        let nv = texts(names@);
        assert(nv.no_duplicates()) by {
            assert forall|a: int, b: int| 0 <= a < nv.len() && 0 <= b < nv.len() && a != b implies nv[a] != nv[b] by {
                assert(nv[a] == names@[a]@ && nv[b] == names@[b]@);
            }
        }
        assert forall|i: int| 0 <= i < ps.len() && in_option_folder(#[trigger] ps[i]) implies nv.contains(first_segment(ps[i])) by {
            assert(ps[i] == paths@[i]@);
        }
        lemma_manifest_is_partitioned(ps, nv);
        lemma_total_matches(groups@, nv, ps);
        assert(main@.len() == main_paths(ps).len()) by {
            assert(texts(main@).len() == main@.len());
        }
    }
    let r = (main, groups);
    assert(r.1@ == groups@);
    r
}

/// The number of files over all option folders.
pub open spec fn total_files(groups: Seq<OptionFolder>) -> nat
    decreases groups.len(),
{
    if groups.len() == 0 {
        0
    } else {
        total_files(groups.drop_last()) + groups.last().files@.len()
    }
}

/// The number of files of the manifest in the named option folders.
pub open spec fn files_in_folders(paths: Seq<Seq<char>>, names: Seq<Seq<char>>) -> nat
    decreases names.len(),
{
    if names.len() == 0 {
        0
    } else {
        files_in_folders(paths, names.drop_last()) + folder_files(paths, names.last()).len()
    }
}

/// How many of `names` are `x`.
pub open spec fn occurrences(names: Seq<Seq<char>>, x: Seq<char>) -> nat
    decreases names.len(),
{
    if names.len() == 0 {
        0
    } else {
        occurrences(names.drop_last(), x) + if names.last() == x { 1nat } else { 0nat }
    }
}

proof fn lemma_occurrences_distinct(names: Seq<Seq<char>>, x: Seq<char>)
    requires
        names.no_duplicates(),
    ensures
        occurrences(names, x) == if names.contains(x) { 1nat } else { 0nat },
    decreases names.len(),
{
    if names.len() > 0 {
        let d = names.drop_last();
        assert(d.no_duplicates()) by {
            assert forall|i: int, j: int| 0 <= i < d.len() && 0 <= j < d.len() && i != j implies d[i] != d[j] by {
                assert(d[i] == names[i] && d[j] == names[j]);
            }
        }
        lemma_occurrences_distinct(d, x);
        if names.last() == x {
            assert(!d.contains(x)) by {
                if d.contains(x) {
                    let k = choose|k: int| 0 <= k < d.len() && d[k] == x;
                    assert(names[k] == names[names.len() - 1]);
                }
            }
            assert(names[names.len() - 1] == x);
        } else {
            if names.contains(x) {
                let k = choose|k: int| 0 <= k < names.len() && names[k] == x;
                assert(k < d.len());
                assert(d[k] == x);
            }
            if d.contains(x) {
                let k = choose|k: int| 0 <= k < d.len() && d[k] == x;
                assert(names[k] == x);
            }
        }
    }
}

proof fn lemma_files_in_folders_step(paths: Seq<Seq<char>>, names: Seq<Seq<char>>)
    requires
        paths.len() > 0,
    ensures
        files_in_folders(paths, names) == files_in_folders(paths.drop_last(), names) + if in_option_folder(paths.last()) {
            occurrences(names, first_segment(paths.last()))
        } else {
            0nat
        },
    decreases names.len(),
{
    if names.len() > 0 {
        lemma_files_in_folders_step(paths, names.drop_last());
    }
}

proof fn lemma_manifest_is_partitioned(paths: Seq<Seq<char>>, names: Seq<Seq<char>>)
    requires
        names.no_duplicates(),
        forall|i: int| 0 <= i < paths.len() && in_option_folder(#[trigger] paths[i]) ==> names.contains(first_segment(paths[i])),
    ensures
        main_paths(paths).len() + files_in_folders(paths, names) == paths.len(),
    decreases paths.len(),
{
    if paths.len() == 0 {
        assert(files_in_folders(paths, names) == 0) by {
            lemma_no_files_in_folders(paths, names);
        }
    } else {
        let d = paths.drop_last();
        assert forall|i: int| 0 <= i < d.len() && in_option_folder(#[trigger] d[i]) implies names.contains(first_segment(d[i])) by {
            assert(d[i] == paths[i]);
        }
        lemma_manifest_is_partitioned(d, names);
        lemma_files_in_folders_step(paths, names);
        if in_option_folder(paths.last()) {
            assert(paths[paths.len() - 1] == paths.last());
            lemma_occurrences_distinct(names, first_segment(paths.last()));
        }
    }
}

proof fn lemma_no_files_in_folders(paths: Seq<Seq<char>>, names: Seq<Seq<char>>)
    requires
        paths.len() == 0,
    ensures
        files_in_folders(paths, names) == 0,
    decreases names.len(),
{
    if names.len() > 0 {
        lemma_no_files_in_folders(paths, names.drop_last());
    }
}

proof fn lemma_total_matches(groups: Seq<OptionFolder>, names: Seq<Seq<char>>, paths: Seq<Seq<char>>)
    requires
        groups.len() == names.len(),
        forall|a: int| 0 <= a < groups.len() ==> texts((#[trigger] groups[a]).files@) == folder_files(paths, names[a]),
    ensures
        total_files(groups) == files_in_folders(paths, names),
    decreases groups.len(),
{
    if groups.len() > 0 {
        let dg = groups.drop_last();
        let dn = names.drop_last();
        assert forall|a: int| 0 <= a < dg.len() implies texts((#[trigger] dg[a]).files@) == folder_files(paths, dn[a]) by {
            assert(dg[a] == groups[a] && dn[a] == names[a]);
        }
        lemma_total_matches(dg, dn, paths);
        let last = groups.len() - 1;
        assert(groups[last] == groups.last());
        assert(texts(groups.last().files@).len() == groups.last().files@.len());
    }
}

/// Whether a path names a recognized mod file: it ends, compared case-insensitively
/// (Unicode lower case), with `.pak`, `.ucas` or `.utoc`.
pub open spec fn recognized_mod_file(path: Seq<char>) -> bool {
    has_mod_suffix(unicode_lowercase(path))
}

/// Whether a lower-cased path ends with `.pak`, `.ucas` or `.utoc`.
pub open spec fn has_mod_suffix(lower: Seq<char>) -> bool {
    has_suffix(lower, ".pak"@) || has_suffix(lower, ".ucas"@) || has_suffix(lower, ".utoc"@)
}

/// Whether any file of the manifest is a recognized mod file (see `recognized_mod_file`).
/// On ASCII paths the case-insensitive comparison is that of ASCII.
pub fn has_recognized_mod_files(paths: &[String]) -> (r: bool)
    ensures
        r == exists|i: int| 0 <= i < paths@.len() && recognized_mod_file(paths@[i]@),
        (forall|i: int| 0 <= i < paths@.len() ==> is_ascii_text(#[trigger] paths@[i]@)) ==>
            (r == exists|i: int| 0 <= i < paths@.len() && has_mod_suffix(ascii_lower_seq(#[trigger] paths@[i]@))),
{
    let pak = chars_of(".pak");
    let ucas = chars_of(".ucas");
    let utoc = chars_of(".utoc");
    let n = paths.len();
    for i in 0..n
        invariant
            n == paths@.len(),
            pak@ == ".pak"@,
            ucas@ == ".ucas"@,
            utoc@ == ".utoc"@,
            forall|j: int| 0 <= j < i ==> !recognized_mod_file(paths@[j]@),
            forall|j: int| 0 <= j < i && is_ascii_text(#[trigger] paths@[j]@) ==>
                unicode_lowercase(paths@[j]@) == ascii_lower_seq(paths@[j]@),
    {
        let lower = to_lowercase(paths[i].as_str());
        let l = chars_of(lower.as_str());
        if ends_with(&l, &pak) || ends_with(&l, &ucas) || ends_with(&l, &utoc) {
            return true;
        }
    }
    false
}

/// A path with every backslash turned into `/`.
pub open spec fn forward_slashes(p: Seq<char>) -> Seq<char> {
    p.map_values(|c: char| if c == '\\' { '/' } else { c })
}

/// The manifest path of an archive entry: directories are skipped, and so are entries whose
/// name is not safely enclosed in the extraction folder (`enclosed_name` is `None`); the
/// others are listed with forward slashes.
pub fn manifest_entry_path(is_dir: bool, enclosed_name: Option<String>) -> (r: Option<String>)
    ensures
        is_dir ==> r is None,
        !is_dir ==> (enclosed_name is None ==> r is None),
        !is_dir ==> (enclosed_name matches Some(n) ==> r matches Some(p) && p@ == forward_slashes(n@)),
{
    if is_dir {
        return None;
    }
    match enclosed_name {
        None => None,
        Some(name) => {
            let cs = chars_of(name.as_str());
            let n = cs.len();
            let mut out: Vec<char> = Vec::new();
            for i in 0..n
                invariant
                    n == cs@.len(),
                    out@ == forward_slashes(cs@.take(i as int)),
            {
                let c = cs[i];
                out.push(if c == '\\' { '/' } else { c });
                assert(forward_slashes(cs@.take(i + 1)) =~= forward_slashes(cs@.take(i as int)).push(
                    if c == '\\' { '/' } else { c },
                ));
            }
            assert(cs@.take(n as int) =~= cs@);
            Some(string_of(&out))
        },
    }
}

/// The relative path stored for a file of an option folder: `<folder>/<path in folder>`.
pub fn option_file_path(folder_name: &str, path_in_folder: &str) -> (r: String)
    ensures
        r@ == folder_name@ + "/"@ + path_in_folder@,
{
    let mut r = folder_name.to_string();
    push_all(&mut r, "/");
    push_all(&mut r, path_in_folder);
    r
}

/// The name tried for the `attempt`-th time for a loose file: the desired name itself first,
/// then `<stem>_<attempt><.extension>`.
pub open spec fn candidate_name(desired: Seq<char>, attempt: nat) -> Seq<char> {
    if attempt == 0 {
        desired
    } else {
        let stem = match path_file_stem(desired) {
            Some(s) => s,
            None => Seq::empty(),
        };
        let ext = match path_extension(desired) {
            Some(e) => "."@ + e,
            None => Seq::empty(),
        };
        stem + "_"@ + decimal(attempt) + ext
    }
}

/// The name to try for a loose file at the given attempt (see `candidate_name`).
pub fn staging_candidate(desired: &str, attempt: u32) -> (r: String)
    ensures
        r@ == candidate_name(desired@, attempt as nat),
{
    if attempt == 0 {
        return desired.to_string();
    }
    let mut r = match file_stem(desired) {
        Some(s) => s,
        None => String::new(),
    };
    push_all(&mut r, "_");
    let digits = u64_text(attempt as u64);
    push_all(&mut r, digits.as_str());
    match extension(desired) {
        Some(e) => {
            push_all(&mut r, ".");
            push_all(&mut r, e.as_str());
        },
        None => {},
    }
    r
}

/// The staging names given so far to the files of one copy batch, and the search for the
/// name of the file being copied: its desired name, the attempt under way, and for each
/// earlier attempt whether the staging folder was reported to hold its candidate.
pub struct StagingNames {
    used: Vec<String>,
    desired: String,
    attempt: u32,
    reported: Ghost<Seq<bool>>,
}

impl View for StagingNames {
    type V = Seq<Seq<char>>;

    closed spec fn view(&self) -> Seq<Seq<char>> {
        texts(self.used@)
    }
}

impl StagingNames {
    /// The desired name of the file being named.
    pub closed spec fn desired(&self) -> Seq<char> {
        self.desired@
    }

    /// The attempt under way for the file being named.
    pub closed spec fn attempt(&self) -> nat {
        self.attempt as nat
    }

    /// For each earlier attempt of the file being named, whether the staging folder was
    /// reported to hold its candidate.
    pub closed spec fn reported(&self) -> Seq<bool> {
        self.reported@
    }

    /// No two names given are the same, and every earlier attempt of the file being named
    /// was refused: its candidate exists in the staging folder or was given already.
    pub closed spec fn wf(&self) -> bool {
        &&& self@.no_duplicates()
        &&& self.reported@.len() == self.attempt
        &&& forall|b: int| 0 <= b < self.attempt ==> #[trigger] self.reported@[b]
            || self@.contains(candidate_name(self.desired@, b as nat))
    }

    /// A batch with no name given yet.
    pub fn new() -> (r: StagingNames)
        ensures
            r@ == Seq::<Seq<char>>::empty(),
            r.wf(),
            r.attempt() == 0,
    {
        let r = StagingNames { used: Vec::new(), desired: String::new(), attempt: 0, reported: Ghost(Seq::empty()) };
        assert(r@ =~= Seq::<Seq<char>>::empty());
        r
    }

    /// Starts naming the next file, whose desired name is `desired`: the first attempt is
    /// the desired name itself.
    pub fn begin(&mut self, desired: &str)
        requires
            old(self).wf(),
        ensures
            final(self).wf(),
            final(self)@ == old(self)@,
            final(self).desired() == desired@,
            final(self).attempt() == 0,
            final(self).reported() == Seq::<bool>::empty(),
    {
        self.desired = desired.to_string();
        self.attempt = 0;
        self.reported = Ghost(Seq::empty());
    }

    /// The attempt under way.
    pub fn current_attempt(&self) -> (r: u32)
        ensures
            r == self.attempt(),
    {
        self.attempt
    }

    /// The candidate of the attempt under way (see `candidate_name`).
    pub fn current_candidate(&self) -> (r: String)
        ensures
            r@ == candidate_name(self.desired(), self.attempt()),
    {
        staging_candidate(self.desired.as_str(), self.attempt)
    }

    /// Answers the attempt under way with whether the staging folder holds its candidate.
    /// The candidate is taken when it is not there and no earlier file of the batch got it;
    /// then every earlier attempt of this file was refused, so the name taken is the first
    /// free one: the desired name, or else the least free `_<k>` suffix. Otherwise the
    /// next attempt is under way.
    pub fn answer(&mut self, exists_in_staging: bool) -> (r: Option<String>)
        requires
            old(self).wf(),
            old(self).attempt() < u32::MAX,
        ensures
            final(self).wf(),
            final(self).desired() == old(self).desired(),
            ({
                let c = candidate_name(old(self).desired(), old(self).attempt());
                let taken = !exists_in_staging && !old(self)@.contains(c);
                &&& taken ==> (r matches Some(name) && name@ == c)
                &&& taken ==> final(self)@ == old(self)@.push(c)
                &&& taken ==> forall|b: nat| b < old(self).attempt() ==> #[trigger] old(self).reported()[b as int]
                    || old(self)@.contains(candidate_name(old(self).desired(), b))
                &&& !taken ==> r is None && final(self)@ == old(self)@
                &&& !taken ==> final(self).attempt() == old(self).attempt() + 1
                &&& !taken ==> final(self).reported() == old(self).reported().push(exists_in_staging)
            }),
    {
        let candidate = staging_candidate(self.desired.as_str(), self.attempt);
        let ghost c = candidate@;
        let ghost before = self@;
        if exists_in_staging || contains_text(&self.used, &candidate) {
            let ghost reported = self.reported@;
            self.attempt = self.attempt + 1;
            self.reported = Ghost(reported.push(exists_in_staging));
            assert forall|b: int| 0 <= b < self.attempt implies #[trigger] self.reported@[b]
                || self@.contains(candidate_name(self.desired@, b as nat)) by {
                if b < self.attempt - 1 {
                    assert(self.reported@[b] == reported[b]);
                }
            }
            return None;
        }
        self.used.push(candidate.clone());
        assert(self@ =~= before.push(c));
        assert(self@.no_duplicates()) by {
            assert forall|a: int, b: int| 0 <= a < self@.len() && 0 <= b < self@.len() && a != b
                implies self@[a] != self@[b] by {
                if a == before.len() {
                    assert(!before.contains(self@[a]));
                    assert(self@[b] == before[b]);
                } else if b == before.len() {
                    assert(!before.contains(self@[b]));
                    assert(self@[a] == before[a]);
                }
            }
        }
        assert forall|b: int| 0 <= b < self.attempt implies #[trigger] self.reported@[b]
            || self@.contains(candidate_name(self.desired@, b as nat)) by {
            if !self.reported@[b] {
                let x = candidate_name(self.desired@, b as nat);
                let k = choose|k: int| 0 <= k < before.len() && before[k] == x;
                assert(self@[k] == x);
            }
        }
        Some(candidate)
    }
}

/// The names a copy batch gives its files are pairwise distinct: a name is taken only when
/// no earlier file of the batch has it, so one file never overwrites another.
pub proof fn lemma_staging_names_distinct(names: StagingNames)
    requires
        names.wf(),
    ensures
        forall|a: int, b: int| 0 <= a < names@.len() && 0 <= b < names@.len() && a != b ==> names@[a] != names@[b],
{
}

} // verus!
