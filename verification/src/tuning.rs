//! Performance knobs, and what follows from them for the mount.

use vstd::prelude::*;

verus! {

/// A length of time, or a point in time counted from the epoch.
#[derive(Clone, Copy, Debug, PartialEq, Eq)]
pub struct Span {
    pub secs: u64,
    pub nanos: u32,
}

/// Performance knobs, each of which can be turned on its own. They trade cache coherence and
/// round-trips for throughput, which is safe when this process is the only client of the export.
#[derive(Clone, Copy, Debug, PartialEq, Eq)]
pub struct Tuning {
    /// How long the kernel may trust cached attributes. 0: every stat makes a round-trip.
    pub attr_ttl: Span,
    /// How long the kernel may trust a cached lookup of a name. 0: no caching.
    pub entry_ttl: Span,
    /// How long a lookup that found nothing is remembered. `None`: it is not.
    pub negative_ttl: Option<Span>,
    /// Fetch each entry's attributes during directory reads. Off by default: it costs a walk and a
    /// getattr per entry, and a plain traversal never asks for them.
    pub readdirplus: bool,
    /// Defer each write to the background, and let the kernel buffer writes. Off: one round-trip
    /// per write.
    pub writeback: bool,
    /// How many writes of one open file may be in flight when `writeback` is on.
    pub wb_depth: usize,
}

/// The knobs with times to live in seconds.
pub open spec fn of_seconds(
    attr_ttl: u64,
    entry_ttl: u64,
    negative_ttl: u64,
    readdirplus: bool,
    writeback: bool,
    wb_depth: usize,
) -> Tuning {
    Tuning {
        attr_ttl: seconds(attr_ttl),
        entry_ttl: seconds(entry_ttl),
        negative_ttl: if negative_ttl > 0 {
            Some(seconds(negative_ttl))
        } else {
            None
        },
        readdirplus,
        writeback,
        wb_depth,
    }
}

/// A whole number of seconds.
pub open spec fn seconds(secs: u64) -> Span {
    Span { secs, nanos: 0 }
}

impl Default for Tuning {
    fn default() -> (t: Self)
        ensures
            t == (Tuning {
                attr_ttl: seconds(60),
                entry_ttl: seconds(60),
                negative_ttl: Some(seconds(5)),
                readdirplus: false,
                writeback: true,
                wb_depth: 16,
            }),
    {
        Tuning {
            attr_ttl: Span { secs: 60, nanos: 0 },
            entry_ttl: Span { secs: 60, nanos: 0 },
            negative_ttl: Some(Span { secs: 5, nanos: 0 }),
            readdirplus: false,
            writeback: true,
            wb_depth: 16,
        }
    }
}

impl Tuning {
    /// The knobs for times given in whole seconds. A negative-lookup time of 0 turns that off.
    pub fn from_seconds(
        attr_ttl: u64,
        entry_ttl: u64,
        negative_ttl: u64,
        readdirplus: bool,
        writeback: bool,
        wb_depth: usize,
    ) -> (t: Self)
        ensures
            t == of_seconds(attr_ttl, entry_ttl, negative_ttl, readdirplus, writeback, wb_depth),
    {
        Tuning {
            attr_ttl: Span { secs: attr_ttl, nanos: 0 },
            entry_ttl: Span { secs: entry_ttl, nanos: 0 },
            negative_ttl: if negative_ttl > 0 {
                Some(Span { secs: negative_ttl, nanos: 0 })
            } else {
                None
            },
            readdirplus,
            writeback,
            wb_depth,
        }
    }
}

// Kernel capability flags.
/// The kernel buffers writes and flushes them on its own.
pub const FUSE_WRITEBACK_CACHE: u32 = 0x1_0000;
/// The kernel asks for attributes together with directory entries.
pub const FUSE_DO_READDIRPLUS: u32 = 0x2000;
/// ... when it seems to pay off.
pub const FUSE_READDIRPLUS_AUTO: u32 = 0x4000;

/// What to ask of the kernel when the mount starts.
#[derive(Debug, PartialEq, Eq)]
pub struct KernelWants {
    /// The most bytes that one read or write may carry.
    pub max_io: u32,
    /// Sets of capability flags, to be asked for one after the other.
    pub capabilities: Vec<u32>,
}

/// The largest read or write for a message size: it leaves room for the message's header.
pub open spec fn max_io(msize: u32) -> u32 {
    if msize < 64 + 8192 {
        8192
    } else {
        (msize - 64) as u32
    }
}

/// The capability sets to ask for.
pub open spec fn wanted_capabilities(t: Tuning) -> Seq<u32> {
    (if t.writeback {
        seq![FUSE_WRITEBACK_CACHE]
    } else {
        Seq::empty()
    }) + (if t.readdirplus {
        seq![FUSE_DO_READDIRPLUS | FUSE_READDIRPLUS_AUTO]
    } else {
        Seq::empty()
    })
}

/// What to ask of the kernel for a message size of `msize`.
pub fn kernel_wants(msize: u32, tuning: &Tuning) -> (w: KernelWants)
    ensures
        w.max_io == max_io(msize),
        w.capabilities@ == wanted_capabilities(*tuning),
{
    let room: u32 = msize.saturating_sub(64);
    let max_io: u32 = if room < 8192 {
        8192
    } else {
        room
    };
    let mut capabilities: Vec<u32> = Vec::new();
    if tuning.writeback {
        capabilities.push(FUSE_WRITEBACK_CACHE);
    }
    if tuning.readdirplus {
        capabilities.push(FUSE_DO_READDIRPLUS | FUSE_READDIRPLUS_AUTO);
    }
    assert(capabilities@ =~= wanted_capabilities(*tuning));
    KernelWants { max_io, capabilities }
}

/// An option of the mount.
#[derive(Clone, Copy, Debug, PartialEq, Eq)]
pub enum MountFlag {
    /// The file system goes by the name of this program, with the subtype `9p`.
    Named,
    /// The kernel checks permissions by the files' modes.
    DefaultPermissions,
    /// Other users than the one who mounts may use the mount.
    AllowOther,
}

/// The flags of a mount that the user with the given number makes.
pub open spec fn flags_for(euid: u32) -> Seq<MountFlag> {
    seq![MountFlag::Named, MountFlag::DefaultPermissions] + (if euid == 0 {
        seq![MountFlag::AllowOther]
    } else {
        Seq::empty()
    })
}

/// The options to mount with. A mount made by root is used by others, and only root may allow that
/// without being told so in the system's configuration.
pub fn mount_flags(euid: u32) -> (flags: Vec<MountFlag>)
    ensures
        flags@ == flags_for(euid),
{
    let mut flags: Vec<MountFlag> = Vec::new();
    flags.push(MountFlag::Named);
    flags.push(MountFlag::DefaultPermissions);
    if euid == 0 {
        flags.push(MountFlag::AllowOther);
    }
    assert(flags@ =~= flags_for(euid));
    flags
}

/// A write of the kernel fits in one message with 64 bytes to spare wherever such a message holds at
/// least 8192 bytes of data, and is never cut below those.
pub proof fn kernel_writes_fit_in_a_message(msize: u32)
    ensures
        max_io(msize) >= 8192,
        msize >= 8256 ==> max_io(msize) + 64 == msize,
        msize < 8256 ==> max_io(msize) == 8192,
{
}

/// The kernel is asked for what the knobs turn on and for nothing else: bit 16 for the write-back
/// cache, bits 13 and 14 for listings with attributes.
pub proof fn knobs_turn_capabilities_on(t: Tuning, c: u32)
    ensures
        wanted_capabilities(t).contains(c) <==> (c == 0x1_0000 && t.writeback) || (c == 0x6000
            && t.readdirplus),
{
    let w = wanted_capabilities(t);
    assert(0x2000u32 | 0x4000u32 == 0x6000u32) by (bit_vector);
    if t.writeback {
        assert(w[0] == 0x1_0000);
        if t.readdirplus {
            assert(w[1] == 0x6000);
        }
    } else if t.readdirplus {
        assert(w[0] == 0x6000);
    }
}

/// Only the superuser's mounts are open to others; the kernel checks permissions on every mount.
pub proof fn mounts_are_private_but_for_root(euid: u32)
    ensures
        flags_for(euid).contains(MountFlag::Named),
        flags_for(euid).contains(MountFlag::DefaultPermissions),
        flags_for(euid).contains(MountFlag::AllowOther) <==> euid == 0,
{
    let f = flags_for(euid);
    assert(f[0] == MountFlag::Named);
    assert(f[1] == MountFlag::DefaultPermissions);
    if euid == 0 {
        assert(f[2] == MountFlag::AllowOther);
    }
}

/// Times to live are whole seconds, and 0 turns the remembering of misses off.
pub proof fn seconds_are_whole(attr: u64, entry: u64, negative: u64, plus: bool, wb: bool, depth: usize)
    ensures
        ({
            let t = of_seconds(attr, entry, negative, plus, wb, depth);
            &&& t.attr_ttl.secs == attr && t.attr_ttl.nanos == 0
            &&& t.entry_ttl.secs == entry && t.entry_ttl.nanos == 0
            &&& t.negative_ttl is None <==> negative == 0
            &&& t.negative_ttl matches Some(n) ==> n.secs == negative && n.nanos == 0
            &&& t.readdirplus == plus && t.writeback == wb && t.wb_depth == depth
        }),
{
}

} // verus!
