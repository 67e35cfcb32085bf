//! Path strings: joining, splitting a file name, and the names given to
//! conflict copies and temporary files.
use vstd::prelude::*;

verus! {

/// `base` followed by `rel`, with one `/` between them unless `base` is empty
/// or already ends in `/`.
pub open spec fn join_spec(base: Seq<char>, rel: Seq<char>) -> Seq<char> {
    if base.len() == 0 || base.last() == '/' {
        base + rel
    } else {
        base + seq!['/'] + rel
    }
}

/// Index of the last `c` in `s`, or -1 where there is none.
pub open spec fn last_index(s: Seq<char>, c: char) -> int
    decreases s.len(),
{
    if s.len() == 0 {
        -1
    } else if s.last() == c {
        s.len() - 1
    } else {
        last_index(s.drop_last(), c)
    }
}

/// The last component of a path: what follows its last `/`.
pub open spec fn file_name_spec(p: Seq<char>) -> Seq<char> {
    p.subrange(last_index(p, '/') + 1, p.len() as int)
}

/// The directory part of a path, up to and including its last `/`.
pub open spec fn dir_prefix_spec(p: Seq<char>) -> Seq<char> {
    p.subrange(0, last_index(p, '/') + 1)
}

/// Whether a file name has an extension: it holds a `.` and does not start with one.
pub open spec fn has_extension(name: Seq<char>) -> bool {
    last_index(name, '.') > 0 && name[0] != '.'
}

/// The file name before its last `.`, or the whole name if it has no extension.
pub open spec fn stem_spec(name: Seq<char>) -> Seq<char> {
    if has_extension(name) {
        name.subrange(0, last_index(name, '.'))
    } else {
        name
    }
}

/// What follows the last `.` of a file name that has an extension.
pub open spec fn extension_spec(name: Seq<char>) -> Seq<char> {
    name.subrange(last_index(name, '.') + 1, name.len() as int)
}

proof fn lemma_last_index_bounds(s: Seq<char>, c: char)
    ensures
        -1 <= last_index(s, c) < s.len(),
        last_index(s, c) >= 0 ==> s[last_index(s, c)] == c,
        forall|j: int| last_index(s, c) < j < s.len() ==> s[j] != c,
    decreases s.len(),
{
    if s.len() > 0 && s.last() != c {
        lemma_last_index_bounds(s.drop_last(), c);
        assert forall|j: int| last_index(s, c) < j < s.len() implies s[j] != c by {
            if j < s.len() - 1 {
                assert(s.drop_last()[j] == s[j]);
            }
        }
    }
}

/// Index of the last `c` in `s`, if there is one.
pub fn find_last(s: &str, c: char) -> (r: Option<usize>)
    ensures
        match r {
            Some(k) => k == last_index(s@, c) && k >= 0,
            None => last_index(s@, c) == -1,
        },
{
    proof {
        lemma_last_index_bounds(s@, c);
    }
    let n = s.unicode_len();
    let mut last: Option<usize> = None;
    let mut i: usize = 0;
    while i < n
        invariant
            n == s@.len(),
            i <= n,
            match last {
                Some(k) => k == last_index(s@.take(i as int), c),
                None => last_index(s@.take(i as int), c) == -1,
            },
        decreases n - i,
    {
        assert(s@.take(i + 1).drop_last() =~= s@.take(i as int));
        if s.get_char(i) == c {
            last = Some(i);
        }
        i = i + 1;
    }
    assert(s@.take(n as int) =~= s@);
    last
}

/// One past the index of the last `c` in `s`: where what follows it begins.
fn after_last(s: &str, c: char) -> (r: usize)
    ensures
        r == last_index(s@, c) + 1,
        r <= s@.len(),
{
    proof {
        lemma_last_index_bounds(s@, c);
    }
    let n = s.unicode_len();
    match find_last(s, c) {
        Some(k) => {
            assert(k < n);
            k + 1
        },
        None => 0,
    }
}

/// `base` followed by `rel`, with one `/` between them unless `base` is empty
/// or already ends in `/`.
pub fn join_path(base: &str, rel: &str) -> (r: String)
    ensures
        r@ == join_spec(base@, rel@),
{
    let n = base.unicode_len();
    let mut r = base.to_string();
    if n > 0 && base.get_char(n - 1) != '/' {
        proof {
            reveal_strlit("/");
        }
        r.append("/");
    }
    r.append(rel);
    r
}

/// The two kinds of conflict a destination file name can record.
#[derive(PartialEq, Eq, Structural, Clone, Copy, Debug)]
pub enum ConflictKind {
    /// Sources disagree in content.
    Read,
    /// Sources agree, but an existing destination differs.
    Write,
}

/// The tag that a conflict name carries for each kind.
pub open spec fn conflict_tag(kind: ConflictKind) -> Seq<char> {
    match kind {
        ConflictKind::Read => "READ_MERGE_CONFLICT"@,
        ConflictKind::Write => "WRITE_MERGE_CONFLICT"@,
    }
}

/// `<stem>.__<TAG>__<hash>.<ext>`: the name under which a conflicting
/// variant of the file `name` is written. Without a hash the hash part is
/// empty; without an extension no `.<ext>` is appended.
pub open spec fn conflict_file_name(name: Seq<char>, hash: Option<Seq<char>>, kind: ConflictKind) -> Seq<char> {
    (if name.len() > 0 { stem_spec(name) + "."@ } else { Seq::empty() }) + "__"@ + conflict_tag(kind)
        + "__"@ + (match hash {
        Some(h) => h,
        None => Seq::empty(),
    }) + (if has_extension(name) { "."@ + extension_spec(name) } else { Seq::empty() })
}

/// Where a conflicting variant of `src_path`, found at `sub_path`, goes under
/// `write_path`: the conflict name in the directory the file would have had.
pub open spec fn conflict_dest_path(
    write_path: Seq<char>,
    src_path: Seq<char>,
    sub_path: Seq<char>,
    hash: Option<Seq<char>>,
    kind: ConflictKind,
) -> Seq<char> {
    join_spec(
        write_path,
        dir_prefix_spec(sub_path) + conflict_file_name(file_name_spec(src_path), hash, kind),
    )
}

/// The view of an optional string.
pub open spec fn opt_view(s: Option<&str>) -> Option<Seq<char>> {
    match s {
        Some(t) => Some(t@),
        None => None,
    }
}

fn last_component(p: &str) -> (r: &str)
    ensures
        r@ == file_name_spec(p@),
{
    let start = after_last(p, '/');
    p.substring_char(start, p.unicode_len())
}

fn conflict_name(name: &str, hash: Option<&str>, kind: ConflictKind) -> (r: String)
    ensures
        r@ == conflict_file_name(name@, opt_view(hash), kind),
{
    proof {
        lemma_last_index_bounds(name@, '.');
    }
    let n = name.unicode_len();
    let d = after_last(name, '.');
    let has_ext = d > 1 && name.get_char(0) != '.';
    let mut r = String::new();
    if n > 0 {
        if has_ext {
            r.append(name.substring_char(0, d - 1));
        } else {
            r.append(name);
        }
        r.append(".");
    }
    r.append("__");
    match kind {
        ConflictKind::Read => r.append("READ_MERGE_CONFLICT"),
        ConflictKind::Write => r.append("WRITE_MERGE_CONFLICT"),
    }
    r.append("__");
    match hash {
        Some(h) => r.append(h),
        None => {},
    }
    if has_ext {
        r.append(".");
        r.append(name.substring_char(d, n));
    }
    assert(r@ =~= conflict_file_name(name@, opt_view(hash), kind));
    r
}

/// The full destination path of a conflicting variant of `src_path`, found
/// at `sub_path`, under `write_path`.
pub fn get_merge_conflict_dest_file_path(
    write_path: &str,
    src_path: &str,
    sub_path: &str,
    hash: Option<&str>,
    kind: ConflictKind,
) -> (r: String)
    ensures
        r@ == conflict_dest_path(write_path@, src_path@, sub_path@, opt_view(hash), kind),
{
    let name = last_component(src_path);
    let file_name = conflict_name(name, hash, kind);
    let end = after_last(sub_path, '/');
    let mut rel = sub_path.substring_char(0, end).to_string();
    rel.append(file_name.as_str());
    assert(rel@ =~= dir_prefix_spec(sub_path@) + conflict_file_name(
        file_name_spec(src_path@),
        opt_view(hash),
        kind,
    ));
    join_path(write_path, rel.as_str())
}

/// The `mkstemp` template for a temporary file in directory `dir`.
pub open spec fn temp_template_spec(dir: Seq<char>) -> Seq<char> {
    dir + "/"@ + "__tmp_dit_"@ + "XXXXXX"@
}

/// The `mkstemp` template for a temporary file in directory `dir`: the
/// temporary file lives beside its target, under the `__tmp_dit_` prefix.
pub fn temp_file_template(dir: &str) -> (r: String)
    ensures
        r@ == temp_template_spec(dir@),
{
    let mut r = dir.to_string();
    r.append("/");
    r.append("__tmp_dit_");
    r.append("XXXXXX");
    r
}

} // verus!
