//! The discoverer's decisions: which names a directory level holds across
//! the sources, what each name is, and what is sent for each file.
use crate::common::views;
use crate::common::DitError;
use crate::message::CopyToDestRequest;
use crate::message::HashRequest;
use crate::message::TransferRequest;
use crate::order::lemma_insert_sorted;
use crate::order::locate;
use crate::order::str_less;
use crate::order::strictly_sorted;
use crate::paths::join_path;
use crate::paths::join_spec;
use vstd::prelude::*;

verus! {

/// A name that the walk skips: it starts with `.`.
pub open spec fn is_hidden(name: Seq<char>) -> bool {
    name.len() > 0 && name[0] == '.'
}

/// `name` is listed, and not hidden, in one of the `listings`.
pub open spec fn listed(listings: Seq<Seq<Seq<char>>>, name: Seq<char>) -> bool {
    &&& !is_hidden(name)
    &&& exists|i: int, k: int| 0 <= i < listings.len() && 0 <= k < listings[i].len() && #[trigger] listings[i][k] == name
}

/// The views of the listings of all sources.
pub open spec fn listing_views(listings: Seq<Vec<String>>) -> Seq<Seq<Seq<char>>> {
    listings.map_values(|l: Vec<String>| views(l@))
}

fn starts_with_dot(name: &str) -> (r: bool)
    ensures
        r == is_hidden(name@),
{
    name.unicode_len() > 0 && name.get_char(0) == '.'
}

/// The names that the directory listings of one sub-path hold across all
/// sources (`listings[i]` lists source `i`), without hidden ones, each
/// once, in sorted order.
pub fn visible_union(listings: &Vec<Vec<String>>) -> (r: Vec<String>)
    ensures
        strictly_sorted(views(r@)),
        forall|name: Seq<char>| #[trigger] views(r@).contains(name) <==> listed(listing_views(listings@), name),
{
    let ghost ls = listing_views(listings@);
    let mut names: Vec<String> = Vec::new();
    let mut i: usize = 0;
    proof {
        assert(views(names@) =~= Seq::empty());
    }
    while i < listings.len()
        invariant
            i <= listings@.len(),
            ls == listing_views(listings@),
            strictly_sorted(views(names@)),
            forall|name: Seq<char>| #[trigger] views(names@).contains(name) <==> (!is_hidden(name) && exists|a: int, k: int|
                0 <= a < i && 0 <= k < ls[a].len() && #[trigger] ls[a][k] == name),
        decreases listings.len() - i,
    {
        let listing = &listings[i];
        proof {
            assert(ls[i as int] == views(listing@));
        }
        let mut k: usize = 0;
        while k < listing.len()
            invariant
                i < listings@.len(),
                k <= listing@.len(),
                ls == listing_views(listings@),
                ls[i as int] == views(listing@),
                strictly_sorted(views(names@)),
                forall|name: Seq<char>| #[trigger] views(names@).contains(name) <==> (!is_hidden(name) && (exists|a: int, b: int|
                    0 <= a < i && 0 <= b < ls[a].len() && #[trigger] ls[a][b] == name) || (!is_hidden(name) && exists|b: int|
                    0 <= b < k && #[trigger] ls[i as int][b] == name)),
            decreases listing.len() - k,
        {
            let name = listing[k].as_str();
            proof {
                assert(ls[i as int][k as int] == name@);
            }
            if !starts_with_dot(name) {
                proof {
                    assert(names@.map_values(|s: String| s@) == views(names@));
                }
                let (found, pos) = locate(&names, name);
                if !found {
                    let ghost old_names = views(names@);
                    proof {
                        assert forall|x: int| 0 <= x < pos implies str_less(#[trigger] old_names[x], name@) by {
                            assert(old_names[x] == names@[x]@);
                        }
                        assert forall|x: int| pos <= x < old_names.len() implies str_less(name@, #[trigger] old_names[x]) by {
                            assert(old_names[x] == names@[x]@);
                        }
                        lemma_insert_sorted(old_names, pos as int, name@);
                    }
                    names.insert(pos, name.to_string());
                    proof {
                        let nv = views(names@);
                        assert(nv =~= old_names.insert(pos as int, name@));
                        assert forall|n2: Seq<char>| #[trigger] nv.contains(n2) <==> (old_names.contains(n2) || n2 == name@) by {
                            if nv.contains(n2) {
                                let x = choose|x: int| 0 <= x < nv.len() && nv[x] == n2;
                                if x < pos {
                                    assert(old_names[x] == n2);
                                } else if x > pos {
                                    assert(old_names[x - 1] == n2);
                                }
                            }
                            if old_names.contains(n2) {
                                let x = choose|x: int| 0 <= x < old_names.len() && old_names[x] == n2;
                                if x < pos {
                                    assert(nv[x] == n2);
                                } else {
                                    assert(nv[x + 1] == n2);
                                }
                            }
                            if n2 == name@ {
                                assert(nv[pos as int] == n2);
                            }
                        }
                    }
                } else {
                    proof {
                        let x = choose|x: int| 0 <= x < names@.len() && names@[x]@ == name@;
                        assert(views(names@)[x] == name@);
                    }
                }
            }
            k = k + 1;
        }
        i = i + 1;
    }
    names
}

/// The sub-path of entry `name` inside sub-path `sub` (the root is empty).
pub open spec fn child_spec(sub: Seq<char>, name: Seq<char>) -> Seq<char> {
    if sub.len() == 0 {
        name
    } else {
        sub + "/"@ + name
    }
}

/// The sub-path of entry `name` inside sub-path `sub` (the root is empty).
pub fn child_sub_path(sub: &str, name: &str) -> (r: String)
    ensures
        r@ == child_spec(sub@, name@),
{
    if sub.unicode_len() == 0 {
        name.to_string()
    } else {
        let mut r = sub.to_string();
        r.append("/");
        r.append(name);
        r
    }
}

/// The directory to list for sub-path `sub` of source `read_path`.
pub open spec fn listing_dir_spec(read_path: Seq<char>, sub: Seq<char>) -> Seq<char> {
    if sub.len() == 0 {
        read_path
    } else {
        read_path + "/"@ + sub
    }
}

/// The directory to list for sub-path `sub` of source `read_path`.
pub fn listing_dir(read_path: &str, sub: &str) -> (r: String)
    ensures
        r@ == listing_dir_spec(read_path@, sub@),
{
    let mut r = read_path.to_string();
    if sub.unicode_len() > 0 {
        r.append("/");
        r.append(sub);
    }
    r
}

/// What one source holds at a sub-path.
#[derive(PartialEq, Eq, Structural, Clone, Copy, Debug)]
pub enum EntryKind {
    /// Not listed, or gone.
    Absent,
    File,
    Directory,
    /// Something that is neither a file nor a directory.
    Other,
}

/// What a listed name is across all sources.
#[derive(PartialEq, Eq, Structural, Clone, Copy, Debug)]
pub enum EntryClass {
    File,
    Directory,
}

/// Some source holds a file at the sub-path.
pub open spec fn some_file(kinds: Seq<EntryKind>) -> bool {
    exists|i: int| 0 <= i < kinds.len() && #[trigger] kinds[i] == EntryKind::File
}

/// Some source holds a directory at the sub-path.
pub open spec fn some_dir(kinds: Seq<EntryKind>) -> bool {
    exists|i: int| 0 <= i < kinds.len() && #[trigger] kinds[i] == EntryKind::Directory
}

/// Classifies the name at sub-path `sub_path` from what each source holds
/// there (`kinds`): a file in some sources and a directory in others, or
/// neither anywhere, is an error.
pub fn classify_entry(sub_path: &str, kinds: &Vec<EntryKind>) -> (r: Result<EntryClass, DitError>)
    ensures
        some_file(kinds@) && some_dir(kinds@) ==> r is Err && r->Err_0.error@
            == "path must be a file or directory, not both: '"@ + sub_path@ + "'"@,
        !some_file(kinds@) && !some_dir(kinds@) ==> r is Err && r->Err_0.error@
            == "path must be a file or directory: '"@ + sub_path@ + "'"@,
        some_file(kinds@) && !some_dir(kinds@) ==> r == Ok::<EntryClass, DitError>(EntryClass::File),
        !some_file(kinds@) && some_dir(kinds@) ==> r == Ok::<EntryClass, DitError>(EntryClass::Directory),
{
    let mut is_file = false;
    let mut is_dir = false;
    let mut i: usize = 0;
    while i < kinds.len()
        invariant
            i <= kinds@.len(),
            is_file == exists|k: int| 0 <= k < i && #[trigger] kinds@[k] == EntryKind::File,
            is_dir == exists|k: int| 0 <= k < i && #[trigger] kinds@[k] == EntryKind::Directory,
        decreases kinds.len() - i,
    {
        match kinds[i] {
            EntryKind::File => {
                is_file = true;
            },
            EntryKind::Directory => {
                is_dir = true;
            },
            _ => {},
        }
        i = i + 1;
    }
    if is_file && is_dir {
        let mut msg = "path must be a file or directory, not both: '".to_string();
        msg.append(sub_path);
        msg.append("'");
        return Err(DitError { error: msg });
    }
    if !is_file && !is_dir {
        let mut msg = "path must be a file or directory: '".to_string();
        msg.append(sub_path);
        msg.append("'");
        return Err(DitError { error: msg });
    }
    if is_file {
        Ok(EntryClass::File)
    } else {
        Ok(EntryClass::Directory)
    }
}

/// One message the discoverer sends: an element for the hash-request
/// channel of the given source index, a request for the copy-to-destination
/// channel, or a token for the ordering channel.
#[derive(Debug)]
pub enum Emission {
    Hash(usize, Option<HashRequest>),
    CopyToDest(CopyToDestRequest),
    Transfer(TransferRequest),
}

/// How many sources hold a file.
pub open spec fn file_count(kinds: Seq<EntryKind>) -> nat
    decreases kinds.len(),
{
    if kinds.len() == 0 {
        0
    } else {
        file_count(kinds.drop_last()) + if kinds.last() == EntryKind::File { 1nat } else { 0nat }
    }
}

/// `f` is the first source that holds a file.
pub open spec fn first_file(kinds: Seq<EntryKind>, f: int) -> bool {
    &&& 0 <= f < kinds.len()
    &&& kinds[f] == EntryKind::File
    &&& forall|g: int| 0 <= g < f ==> #[trigger] kinds[g] != EntryKind::File
}

/// `e` is the element for hash channel `i` of file `sub` in source
/// `read_path`: a request where the source holds the file, else a
/// placeholder.
pub open spec fn hash_element(e: Emission, i: int, read_path: Seq<char>, sub: Seq<char>, kind: EntryKind) -> bool {
    &&& e is Hash
    &&& e->Hash_0 == i
    &&& if kind == EntryKind::File {
        &&& e->Hash_1 is Some
        &&& e->Hash_1->0.sub_path@ == sub
        &&& e->Hash_1->0.src_path@ == join_spec(read_path, sub)
    } else {
        e->Hash_1 is None
    }
}

/// What is sent for the file at sub-path `sub`, given what each source
/// holds there: nothing when sources and destinations already agree by
/// length (`files_match`); one hash element per source and then a `Merge`
/// token when two or more sources hold it; the first source's file and
/// then a `Copy` token when one does.
pub open spec fn is_file_plan(
    read_paths: Seq<Seq<char>>,
    sub: Seq<char>,
    kinds: Seq<EntryKind>,
    files_match: bool,
    r: Seq<Emission>,
) -> bool {
    if files_match || file_count(kinds) == 0 {
        r.len() == 0
    } else if file_count(kinds) > 1 {
        &&& r.len() == kinds.len() + 1
        &&& forall|i: int| 0 <= i < kinds.len() ==> hash_element(#[trigger] r[i], i, read_paths[i], sub, kinds[i])
        &&& r[kinds.len() as int] == Emission::Transfer(TransferRequest::Merge)
    } else {
        &&& r.len() == 2
        &&& r[0] is CopyToDest
        &&& r[0]->CopyToDest_0.sub_path@ == sub
        &&& exists|f: int| first_file(kinds, f) && r[0]->CopyToDest_0.src_path@ == join_spec(read_paths[f], sub)
        &&& r[1] == Emission::Transfer(TransferRequest::Copy)
    }
}

/// Plans what the discoverer sends for the file at sub-path `sub_path`.
/// `kinds[i]` is what source `read_paths[i]` holds there, and `files_match`
/// whether sources and destinations already agree by length.
pub fn plan_file(
    read_paths: &Vec<String>,
    sub_path: &str,
    kinds: &Vec<EntryKind>,
    files_match: bool,
) -> (r: Vec<Emission>)
    requires
        kinds.len() == read_paths.len(),
    ensures
        is_file_plan(views(read_paths@), sub_path@, kinds@, files_match, r@),
{
    let n = kinds.len();
    let mut count: usize = 0;
    let mut first: usize = 0;
    let mut i: usize = 0;
    while i < n
        invariant
            n == kinds@.len(),
            i <= n,
            count == file_count(kinds@.take(i as int)),
            count <= i,
            count > 0 ==> first_file(kinds@, first as int) && first < i,
            count == 0 ==> forall|g: int| 0 <= g < i ==> #[trigger] kinds@[g] != EntryKind::File,
        decreases n - i,
    {
        assert(kinds@.take(i + 1).drop_last() =~= kinds@.take(i as int));
        if kinds[i] == EntryKind::File {
            if count == 0 {
                first = i;
            }
            count = count + 1;
        }
        i = i + 1;
    }
    assert(kinds@.take(n as int) =~= kinds@);
    let mut out: Vec<Emission> = Vec::new();
    if files_match || count == 0 {
        return out;
    }
    if count > 1 {
        let mut j: usize = 0;
        while j < n
            invariant
                n == kinds@.len(),
                n == read_paths@.len(),
                j <= n,
                out@.len() == j,
                forall|a: int| 0 <= a < j ==> hash_element(#[trigger] out@[a], a, views(read_paths@)[a], sub_path@, kinds@[a]),
            decreases n - j,
        {
            proof {
                assert(views(read_paths@)[j as int] == read_paths@[j as int]@);
            }
            if kinds[j] == EntryKind::File {
                let req = HashRequest {
                    sub_path: sub_path.to_string(),
                    src_path: join_path(read_paths[j].as_str(), sub_path),
                };
                out.push(Emission::Hash(j, Some(req)));
            } else {
                out.push(Emission::Hash(j, None));
            }
            j = j + 1;
        }
        out.push(Emission::Transfer(TransferRequest::Merge));
        return out;
    }
    proof {
        assert(views(read_paths@)[first as int] == read_paths@[first as int]@);
    }
    let req = CopyToDestRequest {
        sub_path: sub_path.to_string(),
        src_path: join_path(read_paths[first].as_str(), sub_path),
    };
    out.push(Emission::CopyToDest(req));
    out.push(Emission::Transfer(TransferRequest::Copy));
    out
}

/// One directory level of the walk: its sub-path, its names in order, and
/// how many of them have been visited.
struct Frame {
    sub_path: String,
    names: Vec<String>,
    next: usize,
}

/// A frame as values: sub-path, names, and the index of the next name.
pub type FrameView = (Seq<char>, Seq<Seq<char>>, int);

impl Frame {
    closed spec fn view(&self) -> FrameView {
        (self.sub_path@, views(self.names@), self.next as int)
    }
}

/// Drops the finished frames from the top of the stack.
pub open spec fn drop_finished(s: Seq<FrameView>) -> Seq<FrameView>
    decreases s.len(),
{
    if s.len() == 0 {
        s
    } else if s.last().2 < s.last().1.len() {
        s
    } else {
        drop_finished(s.drop_last())
    }
}

/// The depth-first walk of the union of the source trees: a stack of
/// directory levels, each visited in sorted order, a directory's entries
/// before the rest of its parent's.
pub struct DiscoveryWalk {
    frames: Vec<Frame>,
}

impl DiscoveryWalk {
    /// The stack of levels, outermost first.
    pub closed spec fn stack(&self) -> Seq<FrameView> {
        self.frames@.map_values(|f: Frame| f.view())
    }

    /// Every level's cursor lies within its names.
    pub closed spec fn wf(&self) -> bool {
        forall|i: int| 0 <= i < self.frames@.len() ==> (#[trigger] self.frames@[i]).next <= self.frames@[i].names@.len()
    }

    /// A walk with nothing entered yet.
    pub fn new() -> (r: DiscoveryWalk)
        ensures
            r.wf(),
            r.stack() == Seq::<FrameView>::empty(),
    {
        let r = DiscoveryWalk { frames: Vec::new() };
        assert(r.stack() =~= Seq::<FrameView>::empty());
        r
    }

    /// Enters directory `sub_path`, whose listings in the sources are
    /// `listings`: its visible names, sorted, are visited next.
    pub fn enter(&mut self, sub_path: &str, listings: &Vec<Vec<String>>)
        requires
            old(self).wf(),
        ensures
            final(self).wf(),
            final(self).stack().len() == old(self).stack().len() + 1,
            final(self).stack().drop_last() == old(self).stack(),
            final(self).stack().last().0 == sub_path@,
            final(self).stack().last().2 == 0,
            strictly_sorted(final(self).stack().last().1),
            forall|name: Seq<char>| #[trigger] final(self).stack().last().1.contains(name)
                <==> listed(listing_views(listings@), name),
    {
        let names = visible_union(listings);
        let ghost before = self.frames@;
        self.frames.push(Frame { sub_path: sub_path.to_string(), names, next: 0 });
        assert(self.stack().drop_last() =~= before.map_values(|f: Frame| f.view()));
    }

    /// The sub-path of the next entry to visit, after dropping the finished
    /// levels; `None` when the walk is over.
    pub fn next_entry(&mut self) -> (r: Option<String>)
        requires
            old(self).wf(),
        ensures
            final(self).wf(),
            ({
                let t = drop_finished(old(self).stack());
                if t.len() == 0 {
                    r is None && final(self).stack() == t
                } else {
                    let top = t.last();
                    &&& r is Some
                    &&& r->0@ == child_spec(top.0, top.1[top.2])
                    &&& final(self).stack() == t.update(t.len() - 1, (top.0, top.1, top.2 + 1))
                }
            }),
    {
        let ghost start = self.stack();
        loop
            invariant
                self.wf(),
                start == old(self).stack(),
                drop_finished(self.stack()) == drop_finished(start),
            ensures
                self.wf(),
                self.frames@.len() > 0,
                self.frames@.last().next < self.frames@.last().names@.len(),
                self.stack() == drop_finished(start),
            decreases self.frames@.len(),
        {
            let n = self.frames.len();
            if n == 0 {
                assert(self.stack() =~= Seq::<FrameView>::empty());
                assert(drop_finished(self.stack()) == self.stack());
                return None;
            }
            let top_done = self.frames[n - 1].next >= self.frames[n - 1].names.len();
            proof {
                assert(self.stack().last() == self.frames@[n - 1].view());
                assert(views(self.frames@[n - 1].names@).len() == self.frames@[n - 1].names@.len());
            }
            if !top_done {
                break;
            }
            let ghost before = self.frames@;
            self.frames.pop();
            proof {
                assert(self.stack() =~= before.map_values(|f: Frame| f.view()).drop_last());
            }
        }
        let ghost before = self.frames@;
        let n = self.frames.len();
        let mut top = self.frames.pop().unwrap();
        proof {
            assert(before[n - 1] == top);
            assert(views(top.names@)[top.next as int] == top.names@[top.next as int]@);
            assert(before.map_values(|f: Frame| f.view()).last() == top.view());
        }
        let m = top.names.len();
        assert(top.next < m);
        let child = child_sub_path(top.sub_path.as_str(), top.names[top.next].as_str());
        top.next = top.next + 1;
        self.frames.push(top);
        proof {
            let t = drop_finished(start);
            assert(self.stack() =~= t.update(t.len() - 1, (t.last().0, t.last().1, t.last().2 + 1)));
        }
        Some(child)
    }
}

} // verus!
