//! Dropping paths from the kernel's caches when the files behind them have changed.
//!
//! A path is resolved by plain walks, since a file's inode number is its qid path: no table is shared
//! with the file system.

use crate::attrs;
use crate::calls;
use crate::calls::{Answer, AnswerOf, Call, CallOf};
use crate::client;
use crate::client::NineClient;
use crate::effects;
use crate::fuse9p;
use crate::step;
use crate::step::{ReplyOf, StepOf};
use crate::text;
use vstd::prelude::*;

verus! {

/// The names of a path that was given on a line.
pub open spec fn names_on(line: Seq<char>) -> Seq<Seq<char>> {
    text::components(text::trimmed(line))
}

/// The walk of `fid` to the directory that a path is in.
pub open spec fn parent_walk(root_fid: u32, fid: u32, names: Seq<Seq<char>>) -> calls::CallView {
    CallOf::Walk { fid: root_fid, newfid: fid, names: names.drop_last() }
}

/// The walk of `fid` to the file that a path is of.
pub open spec fn child_walk(root_fid: u32, fid: u32, names: Seq<Seq<char>>) -> calls::CallView {
    CallOf::Walk { fid: root_fid, newfid: fid, names }
}

/// A path that is being resolved: its names, and the fid that is walked to its parent.
#[derive(Debug, PartialEq, Eq)]
pub struct Pending {
    pub names: Vec<String>,
    pub fid: u32,
    pub call: Call,
}

/// Starts to drop the path on a line: its parent is walked to. A line without a name is passed over.
pub fn start(client: &mut NineClient, root_fid: u32, line: &str) -> (r: Option<Pending>)
    ensures
        match r {
            None => names_on(line@).len() == 0 && final(client)@ == old(client)@,
            Some(p) => {
                &&& names_on(line@).len() > 0
                &&& calls::name_views(p.names@) == names_on(line@)
                &&& p.fid == old(client)@.next_fid
                &&& final(client)@ == (client::ClientView {
                    next_fid: client::next_fid(p.fid),
                    ..old(client)@
                })
                &&& p.call@ == parent_walk(root_fid, p.fid, names_on(line@))
            },
        },
{
    let trimmed: String = text::trim(line);
    let names: Vec<String> = text::path_names(trimmed.as_str());
    if names.len() == 0 {
        return None;
    }
    let fid: u32 = client.alloc_fid();
    let parents: Vec<String> = first_names(&names, names.len() - 1);
    assert(calls::name_views(names@).take(names@.len() - 1) =~= calls::name_views(
        names@,
    ).drop_last());
    Some(Pending { names, fid, call: CallOf::Walk { fid: root_fid, newfid: fid, names: parents } })
}

/// The first `n` names of a list.
fn first_names(names: &Vec<String>, n: usize) -> (v: Vec<String>)
    requires
        n <= names@.len(),
    ensures
        calls::name_views(v@) == calls::name_views(names@).take(n as int),
{
    let mut v: Vec<String> = Vec::new();
    let mut i: usize = 0;
    while i < n
        invariant
            i <= n <= names@.len(),
            v@.len() == i,
            forall|j: int| 0 <= j < i ==> (#[trigger] v@[j])@ == names@[j]@,
        decreases n - i,
    {
        v.push(names[i].clone());
        i = i + 1;
    }
    assert(calls::name_views(v@) =~= calls::name_views(names@).take(n as int));
    v
}

/// The inode that a walk ended at; a walk over no names ended at the root.
pub open spec fn parent_ino(o: calls::Outcome, root_qid_path: u64) -> Option<u64> {
    match o {
        Ok(AnswerOf::Qids(q)) => Some(
            attrs::ino_of(
                if q.len() > 0 {
                    q.last().path
                } else {
                    root_qid_path
                },
                root_qid_path,
            ),
        ),
        _ => None,
    }
}

/// What to do when the parent was walked to, in this order: drop the fid `clunk`; where `entry` is
/// there, make the kernel forget `name` in that directory; make the call, which walks `fid` to the
/// file itself.
#[derive(Debug, PartialEq, Eq)]
pub struct ParentDone {
    pub clunk: u32,
    pub entry: Option<u64>,
    pub name: String,
    pub fid: u32,
    pub call: Call,
}

/// Goes on when the walk to the parent has come out. Where it failed only the name's entry is left
/// alone.
pub fn parent_walked(
    client: &mut NineClient,
    root_fid: u32,
    root_qid_path: u64,
    p: Pending,
    o: Result<Answer, i32>,
) -> (d: ParentDone)
    requires
        p.names@.len() > 0,
    ensures
        d.clunk == p.fid,
        d.entry == parent_ino(calls::outcome_view(o), root_qid_path),
        d.name@ == p.names@.last()@,
        d.fid == old(client)@.next_fid,
        final(client)@ == (client::ClientView {
            next_fid: client::next_fid(d.fid),
            ..old(client)@
        }),
        d.call@ == child_walk(root_fid, d.fid, calls::name_views(p.names@)),
{
    let entry: Option<u64> = match o {
        Ok(AnswerOf::Qids(q)) => {
            let path: u64 = if q.len() > 0 {
                q[q.len() - 1].path
            } else {
                root_qid_path
            };
            Some(attrs::qid_to_ino(path, root_qid_path))
        },
        _ => None,
    };
    let fid: u32 = client.alloc_fid();
    let name: String = p.names[p.names.len() - 1].clone();
    ParentDone {
        clunk: p.fid,
        entry,
        name,
        fid,
        call: CallOf::Walk { fid: root_fid, newfid: fid, names: p.names },
    }
}

/// The inode of a file that was walked to.
pub open spec fn child_ino(o: calls::Outcome, root_qid_path: u64) -> Option<u64> {
    match step::walked_to(o) {
        Ok(path) => Some(attrs::ino_of(path, root_qid_path)),
        Err(_) => None,
    }
}

/// What to do when the file was walked to, in this order: drop the fid `clunk`; where `inode` is
/// there, make the kernel forget the attributes and data of that inode.
#[derive(Debug, PartialEq, Eq)]
pub struct ChildDone {
    pub clunk: u32,
    pub inode: Option<u64>,
}

/// Goes on when the walk of `fid` to the file has come out. The fid is dropped whether the file is
/// there or not.
pub fn child_walked(root_qid_path: u64, fid: u32, o: Result<Answer, i32>) -> (d: ChildDone)
    ensures
        d.clunk == fid,
        d.inode == child_ino(calls::outcome_view(o), root_qid_path),
{
    let inode: Option<u64> = match step::walk_answer(o) {
        Ok(path) => Some(attrs::qid_to_ino(path, root_qid_path)),
        Err(_) => None,
    };
    ChildDone { clunk: fid, inode }
}

/// The inode that is forgotten is the one under which the kernel looked the file up.
pub proof fn forgets_what_was_looked_up(
    s: fuse9p::FsView,
    nf: u32,
    newfid: u32,
    a: crate::ninep::Attr,
    o: calls::Outcome,
)
    requires
        step::walked_to(o) == Ok::<u64, i32>(a.qid.path),
    ensures
        fuse9p::lookup_found(s, nf, newfid, a).step matches StepOf::Finish {
            reply: ReplyOf::Entry { attr, .. },
            ..
        } && child_ino(o, s.root_qid_path) == Some(attr.ino),
{
}

/// The directory whose entry is forgotten is the root where the path is a single name.
pub proof fn top_level_names_are_in_the_root(root_qid_path: u64)
    ensures
        parent_ino(Ok(AnswerOf::Qids(Seq::empty())), root_qid_path) == Some(attrs::ROOT_INO),
{
}

/// The parent is walked to along all names but the last, and the file along all of them.
pub proof fn paths_are_walked_from_the_root(
    leads: Map<u32, effects::Path>,
    root_fid: u32,
    fid: u32,
    parents: Seq<Seq<char>>,
    name: Seq<char>,
)
    requires
        leads[root_fid].len() == 0,
    ensures
        ({
            let names = parents.push(name);
            &&& effects::asked(leads, parent_walk(root_fid, fid, names)) == (effects::Ask::Bind {
                fid,
                path: parents,
            })
            &&& effects::asked(leads, child_walk(root_fid, fid, names)) == (effects::Ask::Bind {
                fid,
                path: parents.push(name),
            })
        }),
{
    assert(parents.push(name).drop_last() =~= parents);
    assert(leads[root_fid] + parents =~= parents);
    assert(leads[root_fid] + parents.push(name) =~= parents.push(name));
}

/// The directory whose entry is forgotten is the one that the last qid of the walk stands for, and the
/// root where the walk had no name to go along; the file that is forgotten is the one that the last qid
/// stands for. What could not be walked to is left alone.
pub proof fn inodes_are_of_what_was_walked_to(s: fuse9p::FsView, q: Seq<crate::ninep::Qid>, e: i32)
    ensures
        q.len() > 0 ==> {
            &&& parent_ino(Ok(AnswerOf::Qids(q)), s.root_qid_path) == Some(
                effects::number(s, q.last().path),
            )
            &&& child_ino(Ok(AnswerOf::Qids(q)), s.root_qid_path) == Some(
                effects::number(s, q.last().path),
            )
        },
        q.len() == 0 ==> {
            &&& parent_ino(Ok(AnswerOf::Qids(q)), s.root_qid_path) == Some(1u64)
            &&& child_ino(Ok(AnswerOf::Qids(q)), s.root_qid_path) is None
        },
        parent_ino(Err(e), s.root_qid_path) is None,
        child_ino(Err(e), s.root_qid_path) is None,
{
}

/// White space round the path on a line counts for nothing.
pub proof fn lines_may_have_white_space(before: Seq<char>, path: Seq<char>, behind: Seq<char>)
    requires
        text::blank(before),
        text::blank(behind),
        path.len() > 0 ==> !text::white_space(path[0]) && !text::white_space(path.last()),
    ensures
        names_on(before + path + behind) == text::components(path),
{
    text::trimming_takes_white_space_off(before, path, behind);
}

} // verus!
