//! Directory reads that hand the kernel each entry's attributes: fetching them, and offering the
//! entries one by one.

use crate::attrs;
use crate::attrs::FileAttr;
use crate::calls;
use crate::calls::{Answer, Call, CallOf};
use crate::fuse9p;
use crate::fuse9p::Fuse9p;
use crate::ninep;
use crate::ninep::{Attr, DirEntry};
use crate::step;
use crate::step::Wanted;
use crate::tuning::Span;
use vstd::prelude::*;

verus! {

/// A fetch of one entry's attributes that waits for the server: first for the walk to the entry,
/// then for the attributes.
#[derive(Clone, Copy, Debug, PartialEq, Eq)]
pub enum FetchOp {
    Walk { fid: u32 },
    Attr { fid: u32 },
}

/// What to do next for a fetch. `C` is the type of a call, `F` of a list of fids.
#[derive(Debug, PartialEq, Eq)]
pub enum FetchOf<C, F> {
    /// Make the call, and go on with its outcome.
    Call { call: C, op: FetchOp },
    /// Drop the fids. `attr` is what was fetched, if anything was; then the fid leads to the entry.
    Done { clunks: F, attr: Option<Attr> },
}

pub type Fetch = FetchOf<Call, Vec<u32>>;

pub type FetchView = FetchOf<calls::CallView, Seq<u32>>;

impl View for FetchOf<Call, Vec<u32>> {
    type V = FetchView;

    open spec fn view(&self) -> FetchView {
        match *self {
            FetchOf::Call { call, op } => FetchOf::Call { call: call@, op },
            FetchOf::Done { clunks, attr } => FetchOf::Done { clunks: clunks@, attr },
        }
    }
}

/// An entry is walked to by its name, except that the directory itself is cloned.
pub open spec fn fetch_started(parent: u32, w: step::WantedView) -> FetchView {
    FetchOf::Call {
        call: CallOf::Walk {
            fid: parent,
            newfid: w.fid,
            names: if w.entry.name == "."@ {
                Seq::empty()
            } else {
                seq![w.entry.name]
            },
        },
        op: FetchOp::Walk { fid: w.fid },
    }
}

/// A walk that failed has made no fid; a getattr that failed leaves one to drop.
pub open spec fn fetch_resumed(op: FetchOp, o: calls::Outcome) -> FetchView {
    match op {
        FetchOp::Walk { fid } => match step::success(o) {
            Ok(_) => FetchOf::Call { call: CallOf::Getattr { fid }, op: FetchOp::Attr { fid } },
            Err(_) => FetchOf::Done { clunks: Seq::empty(), attr: None },
        },
        FetchOp::Attr { fid } => match step::attr_of(o) {
            Ok(a) => FetchOf::Done { clunks: Seq::empty(), attr: Some(a) },
            Err(_) => FetchOf::Done { clunks: seq![fid], attr: None },
        },
    }
}

/// Starts to fetch the attributes of an entry of the directory that `parent` leads to.
pub fn fetch(parent: u32, w: &Wanted) -> (f: Fetch)
    ensures
        f@ == fetch_started(parent, w@),
{
    let dot: String = ".".to_string();
    let names: Vec<String> = if w.entry.name == dot {
        step::no_names()
    } else {
        step::one_name(w.entry.name.clone())
    };
    FetchOf::Call {
        call: CallOf::Walk { fid: parent, newfid: w.fid, names },
        op: FetchOp::Walk { fid: w.fid },
    }
}

/// Goes on with a fetch when its call has come out.
pub fn resume_fetch(op: FetchOp, o: Result<Answer, i32>) -> (f: Fetch)
    ensures
        f@ == fetch_resumed(op, calls::outcome_view(o)),
{
    match op {
        FetchOp::Walk { fid } => match step::succeeded(o) {
            Ok(_) => FetchOf::Call { call: CallOf::Getattr { fid }, op: FetchOp::Attr { fid } },
            Err(_) => FetchOf::Done { clunks: no_fids(), attr: None },
        },
        FetchOp::Attr { fid } => match step::attr_answer(o) {
            Ok(a) => FetchOf::Done { clunks: no_fids(), attr: Some(a) },
            Err(_) => FetchOf::Done { clunks: step::one_fid(fid), attr: None },
        },
    }
}

fn no_fids() -> (v: Vec<u32>)
    ensures
        v@ == Seq::<u32>::empty(),
{
    let v: Vec<u32> = Vec::new();
    assert(v@ =~= Seq::<u32>::empty());
    v
}

/// A directory entry with what was fetched of it. Where that is something, `fid` leads to it. `E` is
/// the type of an entry.
#[derive(Debug, PartialEq, Eq)]
pub struct FetchedOf<E> {
    pub entry: E,
    pub fid: u32,
    pub attr: Option<Attr>,
}

pub type Fetched = FetchedOf<DirEntry>;

pub type FetchedView = FetchedOf<ninep::DirEntryView>;

impl View for FetchedOf<DirEntry> {
    type V = FetchedView;

    open spec fn view(&self) -> FetchedView {
        FetchedOf { entry: self.entry@, fid: self.fid, attr: self.attr }
    }
}

pub open spec fn fetched_views(l: Seq<Fetched>) -> Seq<FetchedView> {
    l.map_values(|f: Fetched| f@)
}

/// Joins an entry with what was fetched of it.
pub fn fetched(w: Wanted, attr: Option<Attr>) -> (f: Fetched)
    ensures
        f@ == (FetchedOf { entry: w@.entry, fid: w@.fid, attr }),
{
    FetchedOf { entry: w.entry, fid: w.fid, attr }
}

/// An entry with its attributes, for the kernel. `S` is the type of a name.
#[derive(Debug, PartialEq, Eq)]
pub struct PlusItemOf<S> {
    pub ino: u64,
    /// Where to go on reading after this entry.
    pub offset: i64,
    pub name: S,
    pub ttl: Span,
    pub attr: FileAttr,
}

pub type PlusItem = PlusItemOf<String>;

pub type PlusItemView = PlusItemOf<Seq<char>>;

impl View for PlusItemOf<String> {
    type V = PlusItemView;

    open spec fn view(&self) -> PlusItemView {
        PlusItemOf {
            ino: self.ino,
            offset: self.offset,
            name: self.name@,
            ttl: self.ttl,
            attr: self.attr,
        }
    }
}

/// Entries that are being offered to the kernel: the one at `next` was offered last, and the fids in
/// `clunks` are to be dropped at the end. `L` is the type of a list of entries, `F` of a list of fids.
#[derive(Debug, PartialEq, Eq)]
pub struct PlusOf<L, F> {
    pub list: L,
    pub next: usize,
    pub clunks: F,
}

pub type Plus = PlusOf<Vec<Fetched>, Vec<u32>>;

pub type PlusView = PlusOf<Seq<FetchedView>, Seq<u32>>;

impl View for PlusOf<Vec<Fetched>, Vec<u32>> {
    type V = PlusView;

    open spec fn view(&self) -> PlusView {
        PlusOf { list: fetched_views(self.list@), next: self.next, clunks: self.clunks@ }
    }
}

/// What to do next with the entries. `I` is the type of an entry for the kernel, `P` of the entries
/// that are being offered, `F` of a list of fids.
#[derive(Debug, PartialEq, Eq)]
pub enum PlusStepOf<I, P, F> {
    /// Offer the entry, and go on with whether it fit.
    Offer { item: I, plus: P },
    /// Drop the fids in order, whatever comes of it, and reply with the entries that fit.
    Finish { clunks: F },
}

pub type PlusStep = PlusStepOf<PlusItem, Plus, Vec<u32>>;

pub type PlusStepView = PlusStepOf<PlusItemView, PlusView, Seq<u32>>;

impl View for PlusStepOf<PlusItem, Plus, Vec<u32>> {
    type V = PlusStepView;

    open spec fn view(&self) -> PlusStepView {
        match *self {
            PlusStepOf::Offer { item, plus } => PlusStepOf::Offer { item: item@, plus: plus@ },
            PlusStepOf::Finish { clunks } => PlusStepOf::Finish { clunks: clunks@ },
        }
    }
}

/// An entry as it is offered.
pub open spec fn plus_item(
    s: fuse9p::FsView,
    e: ninep::DirEntryView,
    a: Attr,
) -> PlusItemView {
    let ino = s.intern(a.qid.path);
    PlusItemOf {
        ino,
        offset: e.offset as i64,
        name: e.name,
        ttl: s.tuning.entry_ttl,
        attr: attrs::file_attr(ino, a),
    }
}

/// The next entry from `i` on whose attributes were fetched is offered; the others are left out.
pub open spec fn offer_from(
    s: fuse9p::FsView,
    list: Seq<FetchedView>,
    i: int,
    clunks: Seq<u32>,
) -> PlusStepView
    decreases list.len() - i,
{
    if i < 0 || i >= list.len() {
        PlusStepOf::Finish { clunks }
    } else {
        match list[i].attr {
            Some(a) => PlusStepOf::Offer {
                item: plus_item(s, list[i].entry, a),
                plus: PlusOf { list, next: i as usize, clunks },
            },
            None => offer_from(s, list, i + 1, clunks),
        }
    }
}

/// What to offer when the attributes of all entries were fetched.
pub open spec fn offering(s: fuse9p::FsView, list: Seq<FetchedView>) -> PlusStepView {
    offer_from(s, list, 0, Seq::empty())
}

/// The fids from `i` on that lead to an entry.
pub open spec fn fids_from(list: Seq<FetchedView>, i: int) -> Seq<u32>
    decreases list.len() - i,
{
    if i < 0 || i >= list.len() {
        Seq::empty()
    } else if list[i].attr is Some {
        seq![list[i].fid] + fids_from(list, i + 1)
    } else {
        fids_from(list, i + 1)
    }
}

/// An entry that fit counts as a reference to its inode, and the next one is offered. After one that
/// did not fit none is offered any more, and the fids of the entries not handed over are dropped.
pub open spec fn offered(
    s: fuse9p::FsView,
    p: PlusView,
    fits: bool,
) -> (fuse9p::FsView, PlusStepView) {
    if p.next < p.list.len() && p.list[p.next as int].attr is Some {
        let f = p.list[p.next as int];
        let ino = s.intern(f.attr->0.qid.path);
        if fits {
            let after = s.looked_up(ino, f.fid);
            (after, offer_from(after, p.list, p.next + 1, p.clunks + s.spare(ino, f.fid)))
        } else {
            (s, PlusStepOf::Finish { clunks: p.clunks + fids_from(p.list, p.next as int) })
        }
    } else {
        (s, PlusStepOf::Finish { clunks: p.clunks })
    }
}

impl Fuse9p {
    fn offer_next(&self, list: Vec<Fetched>, from: usize, clunks: Vec<u32>) -> (p: PlusStep)
        ensures
            p@ == offer_from(self@, fetched_views(list@), from as int, clunks@),
    {
        let mut i: usize = from;
        while i < list.len()
            invariant
                from <= i,
                i <= list@.len() || i == from,
                offer_from(self@, fetched_views(list@), from as int, clunks@) == offer_from(
                    self@,
                    fetched_views(list@),
                    i as int,
                    clunks@,
                ),
            decreases list.len() - i,
        {
            let ghost views = fetched_views(list@);
            assert(views[i as int] == list@[i as int]@);
            if let Some(a) = list[i].attr {
                let ino: u64 = self.intern(a.qid.path);
                let item: PlusItem = PlusItemOf {
                    ino,
                    offset: list[i].entry.offset as i64,
                    name: list[i].entry.name.clone(),
                    ttl: self.entry_ttl(),
                    attr: attrs::to_fileattr(ino, &a),
                };
                return PlusStepOf::Offer { item, plus: PlusOf { list, next: i, clunks } };
            }
            i = i + 1;
        }
        PlusStepOf::Finish { clunks }
    }

    /// Starts to offer the entries of a directory, with what was fetched of each.
    pub fn prefetched(&self, list: Vec<Fetched>) -> (p: PlusStep)
        ensures
            p@ == offering(self@, fetched_views(list@)),
    {
        self.offer_next(list, 0, no_fids())
    }

    /// Goes on when an entry was offered and did, or did not, fit.
    pub fn offered(&mut self, p: Plus, fits: bool) -> (r: PlusStep)
        ensures
            (final(self)@, r@) == offered(old(self)@, p@, fits),
    {
        let list: Vec<Fetched> = p.list;
        let mut clunks: Vec<u32> = p.clunks;
        let next: usize = p.next;
        if next >= list.len() {
            return PlusStepOf::Finish { clunks };
        }
        assert(fetched_views(list@)[next as int] == list@[next as int]@);
        match list[next].attr {
            Some(a) => if fits {
                let ino: u64 = self.intern(a.qid.path);
                let fid: u32 = list[next].fid;
                let mut spare: Vec<u32> = self.refer(ino, fid);
                clunks.append(&mut spare);
                self.offer_next(list, next + 1, clunks)
            } else {
                drop_from(&list, next, &mut clunks);
                PlusStepOf::Finish { clunks }
            },
            None => PlusStepOf::Finish { clunks },
        }
    }
}

/// Adds the fids from `from` on that lead to an entry.
fn drop_from(list: &Vec<Fetched>, from: usize, clunks: &mut Vec<u32>)
    ensures
        final(clunks)@ == old(clunks)@ + fids_from(fetched_views(list@), from as int),
{
    let mut i: usize = from;
    let ghost views = fetched_views(list@);
    let ghost before = clunks@;
    while i < list.len()
        invariant
            from <= i,
            i <= list@.len() || i == from,
            views == fetched_views(list@),
            before + fids_from(views, from as int) == clunks@ + fids_from(views, i as int),
        decreases list.len() - i,
    {
        assert(views[i as int] == list@[i as int]@);
        let ghost mid = clunks@;
        if list[i].attr.is_some() {
            clunks.push(list[i].fid);
            assert(mid + (seq![list@[i as int].fid] + fids_from(views, i + 1)) =~= clunks@
                + fids_from(views, i + 1));
        }
        i = i + 1;
    }
    assert(clunks@ + Seq::<u32>::empty() =~= clunks@);
}

/// The first entry that is offered is the first whose attributes were fetched, with no fid dropped so
/// far; where none were, the listing is over.
pub proof fn offering_starts_at_the_first(s: fuse9p::FsView, list: Seq<FetchedView>, k: int)
    requires
        0 <= k <= list.len() <= usize::MAX,
        forall|j: int| 0 <= j < k ==> (#[trigger] list[j]).attr is None,
    ensures
        k < list.len() && list[k].attr is Some ==> {
            &&& offering(s, list) matches PlusStepOf::Offer { item, plus } && {
                &&& item.name == list[k].entry.name
                &&& plus.next == k && plus.list == list && plus.clunks.len() == 0
            }
        },
        k == list.len() ==> (offering(s, list) matches PlusStepOf::Finish { clunks }
            && clunks.len() == 0),
{
    crate::effects::next_offer_is_the_next_fetched(s, list, 0, Seq::empty());
}

} // verus!
