//! Disk space used on the root and home file systems.
use vstd::prelude::*;
use crate::utils::text::{chars_of, same_chars};

verus! {

/// What the system reports of one mounted disk.
pub struct DiskSpace {
    pub mount_point: String,
    pub total_space: u64,
    pub available_space: u64,
}

/// The used space (total minus available) of the disks mounted on `m`,
/// added up.
pub open spec fn used_on(ds: Seq<DiskSpace>, m: Seq<char>) -> int
    decreases ds.len(),
{
    if ds.len() == 0 {
        0
    } else {
        let d = ds.last();
        used_on(ds.drop_last(), m) + if d.mount_point@ == m {
            d.total_space - d.available_space
        } else {
            0
        }
    }
}

/// One disk mounted on `m` uses its total space minus its available space
/// there; a disk mounted elsewhere uses none.
pub proof fn law_used_on_one_disk(d: DiskSpace, m: Seq<char>)
    ensures
        used_on(seq![d], m) == if d.mount_point@ == m {
            d.total_space - d.available_space
        } else {
            0
        },
{
    let one = seq![d];
    assert(one.drop_last() =~= Seq::<DiskSpace>::empty());
    assert(one.last() == d);
    assert(used_on(one.drop_last(), m) == 0);
}

/// The used space on `m` of two lists of disks together is the sum of the
/// used space on `m` of each.
pub proof fn law_used_on_adds(a: Seq<DiskSpace>, b: Seq<DiskSpace>, m: Seq<char>)
    ensures
        used_on(a + b, m) == used_on(a, m) + used_on(b, m),
    decreases b.len(),
{
    if b.len() == 0 {
        assert(a + b =~= a);
    } else {
        law_used_on_adds(a, b.drop_last(), m);
        assert((a + b).drop_last() =~= a + b.drop_last());
        assert((a + b).last() == b.last());
    }
}

/// Whether some disk is mounted on `m`.
pub open spec fn is_mounted(ds: Seq<DiskSpace>, m: Seq<char>) -> bool {
    exists|i: int| 0 <= i < ds.len() && #[trigger] ds[i].mount_point@ == m
}

/// Whether the disks mounted on `m` report no more space available than in
/// total, and their used space adds up within a `u64` at every step.
pub open spec fn usage_on_fits(ds: Seq<DiskSpace>, m: Seq<char>) -> bool {
    &&& forall|i: int|
        0 <= i < ds.len() && #[trigger] ds[i].mount_point@ == m ==> ds[i].available_space
            <= ds[i].total_space
    &&& used_on(ds, m) <= u64::MAX
}

/// Whether the used space of `/` and of `/home` is computed without an
/// arithmetic overflow.
pub open spec fn mount_usage_fits(ds: Seq<DiskSpace>) -> bool {
    usage_on_fits(ds, "/"@) && usage_on_fits(ds, "/home"@)
}

proof fn lemma_used_on_grows(ds: Seq<DiskSpace>, m: Seq<char>, k: int)
    requires
        0 <= k <= ds.len(),
        forall|i: int|
            0 <= i < ds.len() && #[trigger] ds[i].mount_point@ == m ==> ds[i].available_space
                <= ds[i].total_space,
    ensures
        0 <= used_on(ds.take(k), m) <= used_on(ds, m),
    decreases ds.len() - k,
{
    if k == ds.len() {
        assert(ds.take(k) =~= ds);
        lemma_used_on_nonneg(ds, m);
    } else {
        lemma_used_on_grows(ds, m, k + 1);
        assert(ds.take(k + 1).drop_last() =~= ds.take(k));
        assert(ds.take(k + 1).last() == ds[k]);
        lemma_used_on_nonneg(ds.take(k), m);
    }
}

proof fn lemma_used_on_nonneg(ds: Seq<DiskSpace>, m: Seq<char>)
    requires
        forall|i: int|
            0 <= i < ds.len() && #[trigger] ds[i].mount_point@ == m ==> ds[i].available_space
                <= ds[i].total_space,
    ensures
        used_on(ds, m) >= 0,
    decreases ds.len(),
{
    if ds.len() > 0 {
        let p = ds.drop_last();
        assert forall|i: int|
            0 <= i < p.len() && #[trigger] p[i].mount_point@ == m implies p[i].available_space
            <= p[i].total_space by {
            assert(p[i] == ds[i]);
        }
        lemma_used_on_nonneg(p, m);
        assert(ds.last() == ds[ds.len() - 1]);
    }
}

/// The used space of the disks mounted on `m`, added up, and whether any
/// disk is mounted there.
fn usage_on(disks: &Vec<DiskSpace>, m: &Vec<char>) -> (r: (u64, bool))
    requires
        usage_on_fits(disks@, m@),
    ensures
        r.0 == used_on(disks@, m@),
        r.1 == is_mounted(disks@, m@),
{
    let mut used: u64 = 0;
    let mut found = false;
    let mut i: usize = 0;
    while i < disks.len()
        invariant
            i <= disks.len(),
            usage_on_fits(disks@, m@),
            used == used_on(disks@.take(i as int), m@),
            found == exists|j: int| 0 <= j < i && #[trigger] disks@[j].mount_point@ == m@,
        decreases disks.len() - i,
    {
        assert(disks@.take(i + 1).drop_last() =~= disks@.take(i as int));
        assert(disks@.take(i + 1).last() == disks@[i as int]);
        proof {
            lemma_used_on_grows(disks@, m@, i + 1);
        }
        let d = &disks[i];
        let mp = chars_of(d.mount_point.as_str());
        if same_chars(&mp, m) {
            used = used + (d.total_space - d.available_space);
            found = true;
        }
        i += 1;
    }
    assert(disks@.take(i as int) =~= disks@);
    (used, found)
}

/// The space used (total minus available, in bytes) on `/`, and on `/home`
/// only when `/home` is a mount point of its own. Where several disks are
/// mounted on the same point, their used space is added up.
pub fn get_mount_usage(disks: &Vec<DiskSpace>) -> (r: (u64, Option<u64>))
    requires
        mount_usage_fits(disks@),
    ensures
        r.0 == used_on(disks@, "/"@),
        match r.1 {
            Some(h) => is_mounted(disks@, "/home"@) && h == used_on(disks@, "/home"@),
            None => !is_mounted(disks@, "/home"@),
        },
{
    let root = chars_of("/");
    let home = chars_of("/home");
    let (used_root, _) = usage_on(disks, &root);
    let (used_home, home_mounted) = usage_on(disks, &home);
    (used_root, if home_mounted { Some(used_home) } else { None })
}

/// Whether the used space of `/` and `/home` is computed without an
/// arithmetic overflow.
pub fn mount_usage_is_defined(disks: &Vec<DiskSpace>) -> (b: bool)
    ensures
        b == mount_usage_fits(disks@),
{
    let root = chars_of("/");
    let home = chars_of("/home");
    usage_fits_on(disks, &root) && usage_fits_on(disks, &home)
}

/// Whether the used space of the disks mounted on `m` is computed without
/// an arithmetic overflow.
fn usage_fits_on(disks: &Vec<DiskSpace>, m: &Vec<char>) -> (b: bool)
    ensures
        b == usage_on_fits(disks@, m@),
{
    let mut used: u128 = 0;
    let mut i: usize = 0;
    while i < disks.len()
        invariant
            i <= disks.len(),
            forall|j: int|
                0 <= j < i && #[trigger] disks@[j].mount_point@ == m@ ==> disks@[j].available_space
                    <= disks@[j].total_space,
            used == used_on(disks@.take(i as int), m@),
            used <= u64::MAX,
        decreases disks.len() - i,
    {
        assert(disks@.take(i + 1).drop_last() =~= disks@.take(i as int));
        assert(disks@.take(i + 1).last() == disks@[i as int]);
        let d = &disks[i];
        let mp = chars_of(d.mount_point.as_str());
        if same_chars(&mp, m) {
            if d.available_space > d.total_space {
                return false;
            }
            used = used + (d.total_space - d.available_space) as u128;
            if used > u64::MAX as u128 {
                proof {
                    if usage_on_fits(disks@, m@) {
                        lemma_used_on_grows(disks@, m@, i + 1);
                    }
                }
                return false;
            }
        }
        i += 1;
    }
    assert(disks@.take(i as int) =~= disks@);
    true
}

} // verus!
