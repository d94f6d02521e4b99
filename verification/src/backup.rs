//! Backup & restore planning.
//!
//! A *full* backup is a file snapshot of the database; a *differential* is a
//! binary delta (bsdiff) of the current database against the most recent
//! full, so a restore needs only the full plus the latest differential. This
//! module holds the catalog records and every decision over them: naming,
//! which full a differential applies to, what a restore reads, what a prune
//! keeps, and the delta itself. Moving files is left to the caller.

use std::io::Cursor;

use qbsdiff::{Bsdiff, Bspatch};
use vstd::prelude::*;

use crate::error::NucleusError;
use crate::text::{contains_str, push_char, str_eq, str_views};
use crate::util::{format_utc, pad_dec, push_padded, utc_stamp};

verus! {

/// Kind of backup.
#[derive(Debug, Clone, Copy, PartialEq, Eq, Structural)]
pub enum BackupKind {
    /// A complete, standalone snapshot.
    Full,
    /// A binary delta against the most recent full.
    Differential,
}

/// A catalog entry describing one backup.
#[derive(Debug)]
pub struct BackupRecord {
    /// Stable id, also the base of the file name (e.g. `2026-06-21_15-30-12-042-full`).
    pub id: String,
    pub kind: BackupKind,
    /// Creation time, Unix milliseconds.
    pub created_at: i64,
    /// For differentials, the id of the full they apply on top of.
    pub parent: Option<String>,
    /// File name within the backup directory.
    pub file: String,
    /// Size of the backup file in bytes.
    pub bytes: u64,
}

impl Clone for BackupRecord {
    fn clone(&self) -> (r: Self)
        ensures r == *self,
    {
        BackupRecord {
            id: self.id.clone(),
            kind: self.kind,
            created_at: self.created_at,
            parent: match &self.parent {
                Some(p) => Some(p.clone()),
                None => None,
            },
            file: self.file.clone(),
            bytes: self.bytes,
        }
    }
}

/// Manages backups in a directory (snapshot files, deltas and a catalog).
pub struct BackupManager {
    dir: String,
}

/// The stable id of a backup taken at `ts` Unix milliseconds:
/// `YYYY-MM-DD_HH-MM-SS-mmm-full` or `...-diff`.
pub open spec fn backup_id_spec(ts: int, kind: BackupKind) -> Seq<char> {
    utc_stamp(ts) + seq!['-'] + pad_dec(ts % 1000, 3) + match kind {
        BackupKind::Full => seq!['-', 'f', 'u', 'l', 'l'],
        BackupKind::Differential => seq!['-', 'd', 'i', 'f', 'f'],
    }
}

/// The file a backup with this id is stored in.
pub open spec fn backup_file_spec(id: Seq<char>, kind: BackupKind) -> Seq<char> {
    id + match kind {
        BackupKind::Full => seq!['.', 'r', 'e', 'd', 'b'],
        BackupKind::Differential => seq!['.', 'p', 'a', 't', 'c', 'h'],
    }
}

/// The index of the most recent full among the first `n` records.
pub open spec fn last_full_before(recs: Seq<BackupRecord>, n: int) -> Option<int>
    decreases n,
{
    if n <= 0 {
        None
    } else if recs[n - 1].kind == BackupKind::Full {
        Some(n - 1)
    } else {
        last_full_before(recs, n - 1)
    }
}

/// The index of the first record with id `id`, from `i` on.
pub open spec fn find_id_from(recs: Seq<BackupRecord>, id: Seq<char>, i: int) -> Option<int>
    decreases recs.len() - i,
{
    if i < 0 || i >= recs.len() {
        None
    } else if recs[i].id@ == id {
        Some(i)
    } else {
        find_id_from(recs, id, i + 1)
    }
}

/// The index of the first record with id `id`.
pub open spec fn find_id(recs: Seq<BackupRecord>, id: Seq<char>) -> Option<int> {
    find_id_from(recs, id, 0)
}

/// The ids of the full backups, in catalog order.
pub open spec fn full_ids(recs: Seq<BackupRecord>) -> Seq<Seq<char>>
    decreases recs.len(),
{
    if recs.len() == 0 {
        Seq::empty()
    } else {
        full_ids(recs.drop_last()) + if recs.last().kind == BackupKind::Full {
            seq![recs.last().id@]
        } else {
            Seq::empty()
        }
    }
}

/// The fulls a prune keeping `keep` of them deletes: all but the newest `keep`.
pub open spec fn doomed(recs: Seq<BackupRecord>, keep: int) -> Seq<Seq<char>> {
    let f = full_ids(recs);
    if f.len() <= keep {
        Seq::empty()
    } else {
        f.take(f.len() - keep)
    }
}

/// Whether a record goes with the doomed fulls: it is one, or applies to one.
pub open spec fn dropped(r: BackupRecord, d: Seq<Seq<char>>) -> bool {
    d.contains(r.id@) || (r.parent matches Some(p) && d.contains(p@))
}

/// The records a prune keeps, in catalog order.
pub open spec fn kept_records(recs: Seq<BackupRecord>, d: Seq<Seq<char>>) -> Seq<BackupRecord>
    decreases recs.len(),
{
    if recs.len() == 0 {
        Seq::empty()
    } else {
        kept_records(recs.drop_last(), d) + if dropped(recs.last(), d) {
            Seq::empty()
        } else {
            seq![recs.last()]
        }
    }
}

/// The files of the records a prune deletes, in catalog order.
pub open spec fn removed_files(recs: Seq<BackupRecord>, d: Seq<Seq<char>>) -> Seq<Seq<char>>
    decreases recs.len(),
{
    if recs.len() == 0 {
        Seq::empty()
    } else {
        removed_files(recs.drop_last(), d) + if dropped(recs.last(), d) {
            seq![recs.last().file@]
        } else {
            Seq::empty()
        }
    }
}

/// The patch `Bsdiff::compare` produces for `source` → `target` (default settings).
pub uninterp spec fn bsdiff_patch(source: Seq<u8>, target: Seq<u8>) -> Seq<u8>;

/// What applying `patch` to `source` with `Bspatch` produces; `None` where it fails.
pub uninterp spec fn bspatch_output(source: Seq<u8>, patch: Seq<u8>) -> Option<Seq<u8>>;

/// The little-endian `u64` in `b[o..o + 8]`, as an integer.
pub open spec fn read_le64(b: Seq<u8>, o: int) -> int {
    b[o] + 0x100 * b[o + 1] + 0x1_0000 * b[o + 2] + 0x100_0000 * b[o + 3] + 0x1_0000_0000 * b[o + 4]
        + 0x100_0000_0000 * b[o + 5] + 0x1_0000_0000_0000 * b[o + 6] + 0x100_0000_0000_0000 * b[o + 7]
}

/// A patch header size field, decoded as sign-magnitude and taken back as `u64`.
pub open spec fn size_field(x: int) -> int {
    if x < 0x8000_0000_0000_0000 || x == 0x8000_0000_0000_0000 {
        x
    } else {
        0x1_8000_0000_0000_0000 - x
    }
}

/// Whether a patch's two stream sizes, plus its 32-byte header, fit in a `u64`
/// (shorter inputs are rejected by the patcher before any arithmetic).
pub open spec fn patch_sizes_fit(p: Seq<u8>) -> bool {
    p.len() < 32 || 32 + size_field(read_le64(p, 8)) + size_field(read_le64(p, 16)) <= u64::MAX
}

/// `Bsdiff::new(source, target).compare(..)` into a buffer (default settings).
/// Claims: it succeeds (its only errors come from the writers, here in-memory
/// buffers that do not fail), the buffer is the named patch `bsdiff_patch`,
/// and, as the crate documents for its patch format, applying it to `source`
/// with `Bspatch` yields `target`. Inputs with `source` over `MAX_LENGTH`
/// (`i32::MAX` bytes) panic in the crate and are excluded.
#[verifier::external_body]
fn bsdiff(source: &[u8], target: &[u8]) -> (r: Result<Vec<u8>, String>)
    requires source@.len() <= i32::MAX,
    ensures
        r is Ok,
        r matches Ok(p) ==> p@ == bsdiff_patch(source@, target@) && bspatch_output(source@, p@) == Some(target@),
{
    let mut patch = Vec::new();
    match Bsdiff::new(source, target).compare(Cursor::new(&mut patch)) {
        Ok(_) => Ok(patch),
        Err(e) => Err(format!("diff failed: {e}")),
    }
}

/// `Bspatch::new(patch)?.apply(source, ..)` into a buffer. Claims only that
/// the output, or the failure, is the named `bspatch_output`. Patches whose
/// header sizes overflow `u64` are excluded (the crate adds them unchecked).
#[verifier::external_body]
fn bspatch(source: &[u8], patch: &[u8]) -> (r: Result<Vec<u8>, String>)
    requires patch_sizes_fit(patch@),
    ensures
        r matches Ok(t) ==> bspatch_output(source@, patch@) == Some(t@),
        r is Err ==> bspatch_output(source@, patch@) is None,
{
    let patcher = match Bspatch::new(patch) {
        Ok(p) => p,
        Err(e) => return Err(format!("bad patch: {e}")),
    };
    let mut out = Vec::new();
    match patcher.apply(source, Cursor::new(&mut out)) {
        Ok(_) => Ok(out),
        Err(e) => Err(format!("patch apply failed: {e}")),
    }
}

fn read_le64_at(b: &[u8], o: usize) -> (r: u128)
    requires o + 8 <= b@.len(),
    ensures r == read_le64(b@, o as int),
{
    (b[o] as u128) + 0x100 * (b[o + 1] as u128) + 0x1_0000 * (b[o + 2] as u128) + 0x100_0000 * (b[o + 3] as u128)
        + 0x1_0000_0000 * (b[o + 4] as u128) + 0x100_0000_0000 * (b[o + 5] as u128)
        + 0x1_0000_0000_0000 * (b[o + 6] as u128) + 0x100_0000_0000_0000 * (b[o + 7] as u128)
}

fn size_field_of(x: u128) -> (r: u128)
    requires x <= u64::MAX,
    ensures r == size_field(x as int),
{
    if x < 0x8000_0000_0000_0000 || x == 0x8000_0000_0000_0000 {
        x
    } else {
        0x1_8000_0000_0000_0000 - x
    }
}

/// Whether the patch's header sizes fit (see `patch_sizes_fit`).
fn check_patch_sizes(p: &[u8]) -> (r: bool)
    ensures r == patch_sizes_fit(p@),
{
    if p.len() < 32 {
        return true;
    }
    let c = size_field_of(read_le64_at(p, 8));
    let d = size_field_of(read_le64_at(p, 16));
    32 + c + d <= 0xFFFF_FFFF_FFFF_FFFF
}

/// What a restore produces from the full's bytes and, for a differential, its
/// patch: the full itself, or the patch applied to it.
pub open spec fn restored_bytes(kind: BackupKind, full: Seq<u8>, patch: Seq<u8>) -> Option<Seq<u8>> {
    match kind {
        BackupKind::Full => Some(full),
        BackupKind::Differential => bspatch_output(full, patch),
    }
}

impl BackupManager {
    /// A manager for the backups kept in directory `dir`.
    pub fn new(dir: String) -> (r: Self)
        ensures r.spec_dir() == dir@,
    {
        BackupManager { dir }
    }

    /// The backup directory.
    pub closed spec fn spec_dir(&self) -> Seq<char> {
        self.dir@
    }

    /// The backup directory.
    pub fn dir(&self) -> (r: &str)
        ensures r@ == self.spec_dir(),
    {
        self.dir.as_str()
    }

    /// The id a backup of `kind` taken at `ts` gets.
    pub fn backup_id(ts: i64, kind: BackupKind) -> (r: String)
        ensures r@ == backup_id_spec(ts as int, kind),
    {
        let mut s = format_utc(ts);
        push_char(&mut s, '-');
        let ms = millis_part(ts);
        push_padded(&mut s, ms, 3);
        match kind {
            BackupKind::Full => s.append("-full"),
            BackupKind::Differential => s.append("-diff"),
        }
        proof {
            reveal_strlit("-full");
            reveal_strlit("-diff");
        }
        s
    }

    /// The file name a backup with id `id` is stored under.
    pub fn backup_file(id: &str, kind: BackupKind) -> (r: String)
        ensures r@ == backup_file_spec(id@, kind),
    {
        let mut s = id.to_owned();
        match kind {
            BackupKind::Full => s.append(".redb"),
            BackupKind::Differential => s.append(".patch"),
        }
        proof {
            reveal_strlit(".redb");
            reveal_strlit(".patch");
        }
        s
    }

    /// The catalog record of a full snapshot taken at `ts`, `bytes` long.
    pub fn full_record(ts: i64, bytes: u64) -> (r: BackupRecord)
        ensures
            r.id@ == backup_id_spec(ts as int, BackupKind::Full),
            r.kind == BackupKind::Full,
            r.created_at == ts,
            r.parent is None,
            r.file@ == backup_file_spec(r.id@, BackupKind::Full),
            r.bytes == bytes,
    {
        let id = Self::backup_id(ts, BackupKind::Full);
        let file = Self::backup_file(id.as_str(), BackupKind::Full);
        BackupRecord { id, kind: BackupKind::Full, created_at: ts, parent: None, file, bytes }
    }

    /// The catalog record of a differential taken at `ts` against the full
    /// with id `parent`, whose patch is `bytes` long.
    pub fn differential_record(ts: i64, parent: &str, bytes: u64) -> (r: BackupRecord)
        ensures
            r.id@ == backup_id_spec(ts as int, BackupKind::Differential),
            r.kind == BackupKind::Differential,
            r.created_at == ts,
            r.parent matches Some(p) && p@ == parent@,
            r.file@ == backup_file_spec(r.id@, BackupKind::Differential),
            r.bytes == bytes,
    {
        let id = Self::backup_id(ts, BackupKind::Differential);
        let file = Self::backup_file(id.as_str(), BackupKind::Differential);
        BackupRecord {
            id,
            kind: BackupKind::Differential,
            created_at: ts,
            parent: Some(parent.to_owned()),
            file,
            bytes,
        }
    }

    /// The position of the most recent full in the catalog, which a
    /// differential is taken against; an error when there is none.
    pub fn differential_base(recs: &[BackupRecord]) -> (r: Result<usize, NucleusError>)
        ensures
            match r {
                Ok(i) => last_full_before(recs@, recs@.len() as int) == Some(i as int),
                Err(e) => last_full_before(recs@, recs@.len() as int) is None
                    && (e matches NucleusError::InvalidRequest(m)
                    && m@ == "no full backup to diff against; take a full first"@),
            },
    {
        let mut n = recs.len();
        while n > 0 && recs[n - 1].kind != BackupKind::Full
            invariant
                n <= recs@.len(),
                last_full_before(recs@, recs@.len() as int) == last_full_before(recs@, n as int),
            decreases n,
        {
            n = n - 1;
        }
        if n > 0 {
            Ok(n - 1)
        } else {
            Err(NucleusError::invalid("no full backup to diff against; take a full first".to_owned()))
        }
    }

    /// The delta from the full's bytes to the current database's bytes; it
    /// always succeeds, and restoring the differential from it gives back
    /// exactly `current`.
    pub fn make_differential(full: &[u8], current: &[u8]) -> (r: Result<Vec<u8>, NucleusError>)
        requires full@.len() <= i32::MAX,
        ensures
            r is Ok,
            r matches Ok(p) ==> p@ == bsdiff_patch(full@, current@)
                && restored_bytes(BackupKind::Differential, full@, p@) == Some(current@),
    {
        match bsdiff(full, current) {
            Ok(p) => Ok(p),
            Err(m) => Err(NucleusError::invalid(m)),
        }
    }

    /// Apply a differential's patch to its full's bytes.
    pub fn apply_differential(full: &[u8], patch: &[u8]) -> (r: Result<Vec<u8>, NucleusError>)
        ensures
            r matches Ok(t) ==> restored_bytes(BackupKind::Differential, full@, patch@) == Some(t@),
            r is Err ==> !patch_sizes_fit(patch@) || restored_bytes(BackupKind::Differential, full@, patch@) is None,
            r matches Err(e) ==> e is InvalidRequest,
            !patch_sizes_fit(patch@) ==> (r matches Err(NucleusError::InvalidRequest(m)) && m@ == "bad patch: patch corrupted"@),
    {
        if !check_patch_sizes(patch) {
            return Err(NucleusError::invalid("bad patch: patch corrupted".to_owned()));
        }
        match bspatch(full, patch) {
            Ok(t) => Ok(t),
            Err(m) => Err(NucleusError::invalid(m)),
        }
    }

    /// What restoring `backup_id` reads: the position of its record and, for
    /// a differential, of the full it applies to. Errors name an unknown
    /// backup, a differential without parent, or a parent missing from the
    /// catalog.
    pub fn restore_plan(recs: &[BackupRecord], backup_id: &str) -> (r: Result<(usize, Option<usize>), NucleusError>)
        ensures
            match find_id(recs@, backup_id@) {
                None => r matches Err(NucleusError::InvalidRequest(m)) && m@ == "unknown backup: "@ + backup_id@,
                Some(i) => match recs@[i].kind {
                    BackupKind::Full => r == Ok::<(usize, Option<usize>), NucleusError>((i as usize, None)),
                    BackupKind::Differential => match recs@[i].parent {
                        None => r matches Err(NucleusError::InvalidRequest(m))
                            && m@ == "differential has no parent full"@,
                        Some(p) => match find_id(recs@, p@) {
                            None => r matches Err(NucleusError::InvalidRequest(m))
                                && m@ == "parent full is missing from catalog"@,
                            Some(j) => r == Ok::<(usize, Option<usize>), NucleusError>((i as usize, Some(j as usize))),
                        },
                    },
                },
            },
    {
        match find_record(recs, backup_id) {
            None => {
                let mut m = "unknown backup: ".to_owned();
                m.append(backup_id);
                Err(NucleusError::invalid(m))
            },
            Some(i) => match recs[i].kind {
                BackupKind::Full => Ok((i, None)),
                BackupKind::Differential => match &recs[i].parent {
                    None => Err(NucleusError::invalid("differential has no parent full".to_owned())),
                    Some(p) => match find_record(recs, p.as_str()) {
                        None => Err(NucleusError::invalid("parent full is missing from catalog".to_owned())),
                        Some(j) => Ok((i, Some(j))),
                    },
                },
            },
        }
    }

    /// What a prune keeping the newest `keep` fulls does: the records that stay
    /// (in catalog order) and the files of those that go — the older fulls and
    /// every differential applying to one of them.
    pub fn prune_plan(recs: &Vec<BackupRecord>, keep: usize) -> (r: (Vec<BackupRecord>, Vec<String>))
        ensures
            r.0@ == kept_records(recs@, doomed(recs@, keep as int)),
            str_views(r.1@) == removed_files(recs@, doomed(recs@, keep as int)),
    {
        let mut fulls: Vec<String> = Vec::new();
        let mut i: usize = 0;
        while i < recs.len()
            invariant
                i <= recs@.len(),
                str_views(fulls@) == full_ids(recs@.take(i as int)),
            decreases recs.len() - i,
        {
            assert(recs@.take(i + 1).drop_last() =~= recs@.take(i as int));
            let ghost before = str_views(fulls@);
            if recs[i].kind == BackupKind::Full {
                fulls.push(recs[i].id.clone());
                assert(str_views(fulls@) =~= before.push(recs@[i as int].id@));
            }
            i = i + 1;
            assert(str_views(fulls@) =~= full_ids(recs@.take(i as int)));
        }
        assert(recs@.take(recs@.len() as int) =~= recs@);
        let ghost f = str_views(fulls@);
        let ghost d = doomed(recs@, keep as int);
        let mut gone: Vec<String> = Vec::new();
        if fulls.len() > keep {
            let cut = fulls.len() - keep;
            let mut k: usize = 0;
            while k < cut
                invariant
                    k <= cut,
                    cut <= fulls@.len(),
                    f == str_views(fulls@),
                    str_views(gone@) == f.take(k as int),
                decreases cut - k,
            {
                let ghost g = str_views(gone@);
                gone.push(fulls[k].clone());
                assert(str_views(gone@) =~= g.push(fulls@[k as int]@));
                assert(f[k as int] == fulls@[k as int]@);
                assert(f.take(k + 1) =~= f.take(k as int).push(f[k as int]));
                k = k + 1;
                assert(str_views(gone@) =~= f.take(k as int));
            }
        }
        assert(str_views(gone@) =~= d);
        let mut kept: Vec<BackupRecord> = Vec::new();
        let mut removed: Vec<String> = Vec::new();
        let mut j: usize = 0;
        while j < recs.len()
            invariant
                j <= recs@.len(),
                str_views(gone@) == d,
                kept@ == kept_records(recs@.take(j as int), d),
                str_views(removed@) == removed_files(recs@.take(j as int), d),
            decreases recs.len() - j,
        {
            let r = &recs[j];
            assert(recs@.take(j + 1).drop_last() =~= recs@.take(j as int));
            assert(recs@.take(j + 1).last() == *r);
            let by_parent = match &r.parent {
                Some(p) => contains_str(&gone, p.as_str()),
                None => false,
            };
            let drop = contains_str(&gone, r.id.as_str()) || by_parent;
            let ghost rv = str_views(removed@);
            if drop {
                removed.push(r.file.clone());
                assert(str_views(removed@) =~= rv.push(r.file@));
            } else {
                kept.push(r.clone());
            }
            j = j + 1;
            assert(kept@ =~= kept_records(recs@.take(j as int), d));
            assert(str_views(removed@) =~= removed_files(recs@.take(j as int), d));
        }
        assert(recs@.take(recs@.len() as int) =~= recs@);
        (kept, removed)
    }
}

/// The entries of `s` that are not in `t`, in order.
pub open spec fn without(s: Seq<Seq<char>>, t: Seq<Seq<char>>) -> Seq<Seq<char>>
    decreases s.len(),
{
    if s.len() == 0 {
        Seq::empty()
    } else {
        without(s.drop_last(), t) + if t.contains(s.last()) { Seq::empty() } else { seq![s.last()] }
    }
}

proof fn lemma_full_ids_kept(recs: Seq<BackupRecord>, d: Seq<Seq<char>>)
    requires
        forall|i: int| 0 <= i < recs.len() && #[trigger] recs[i].kind == BackupKind::Full ==> recs[i].parent is None,
    ensures
        full_ids(kept_records(recs, d)) == without(full_ids(recs), d),
    decreases recs.len(),
{
    if recs.len() > 0 {
        let init = recs.drop_last();
        assert forall|i: int| 0 <= i < init.len() && #[trigger] init[i].kind == BackupKind::Full implies init[i].parent is None by {
            assert(init[i] == recs[i]);
        }
        lemma_full_ids_kept(init, d);
        let last = recs.last();
        assert(recs[recs.len() - 1] == last);
        let k = kept_records(recs, d);
        if dropped(last, d) {
            assert(k == kept_records(init, d) + Seq::<BackupRecord>::empty());
            assert(k =~= kept_records(init, d));
        } else {
            assert(k == kept_records(init, d) + seq![last]);
            assert(k.drop_last() =~= kept_records(init, d));
            assert(k.last() == last);
        }
        if last.kind == BackupKind::Full {
            assert(full_ids(recs) =~= full_ids(init).push(last.id@));
            assert(full_ids(recs).drop_last() =~= full_ids(init));
        } else {
            assert(full_ids(recs) =~= full_ids(init));
        }
    }
}

proof fn lemma_without_covered(s: Seq<Seq<char>>, t: Seq<Seq<char>>)
    requires forall|i: int| 0 <= i < s.len() ==> t.contains(#[trigger] s[i]),
    ensures without(s, t) == Seq::<Seq<char>>::empty(),
    decreases s.len(),
{
    if s.len() > 0 {
        assert(t.contains(s[s.len() - 1]));
        assert forall|i: int| 0 <= i < s.drop_last().len() implies t.contains(#[trigger] s.drop_last()[i]) by {
            assert(s.drop_last()[i] == s[i]);
        }
        lemma_without_covered(s.drop_last(), t);
    }
}

proof fn lemma_without_prefix(f: Seq<Seq<char>>, c: int, n: int)
    requires
        f.no_duplicates(),
        0 <= c <= n <= f.len(),
    ensures without(f.take(n), f.take(c)) == f.subrange(c, n),
    decreases n,
{
    if n == c {
        assert forall|i: int| 0 <= i < f.take(n).len() implies f.take(c).contains(#[trigger] f.take(n)[i]) by {
            assert(f.take(c)[i] == f.take(n)[i]);
        }
        lemma_without_covered(f.take(n), f.take(c));
    } else {
        lemma_without_prefix(f, c, n - 1);
        assert(f.take(n).drop_last() =~= f.take(n - 1));
        assert(f.take(n).last() == f[n - 1]);
        assert(!f.take(c).contains(f[n - 1])) by {
            if f.take(c).contains(f[n - 1]) {
                let w = choose|w: int| 0 <= w < c && #[trigger] f.take(c)[w] == f[n - 1];
                assert(f[w] == f[n - 1]);
            }
        }
        assert(f.subrange(c, n) =~= f.subrange(c, n - 1).push(f[n - 1]));
    }
}

/// A prune keeping `keep` fulls keeps exactly the newest `keep` of them (all
/// of them when there are fewer), in catalog order. Stated for catalogs as the
/// manager writes them: distinct full ids, and no full with a parent.
pub proof fn lemma_prune_keeps_newest_fulls(recs: Seq<BackupRecord>, keep: int)
    requires
        keep >= 0,
        full_ids(recs).no_duplicates(),
        forall|i: int| 0 <= i < recs.len() && #[trigger] recs[i].kind == BackupKind::Full ==> recs[i].parent is None,
    ensures
        ({
            let f = full_ids(recs);
            full_ids(kept_records(recs, doomed(recs, keep))) == if f.len() <= keep {
                f
            } else {
                f.skip(f.len() - keep)
            }
        }),
{
    let f = full_ids(recs);
    let c = if f.len() <= keep { 0 } else { f.len() - keep };
    assert(doomed(recs, keep) =~= f.take(c));
    lemma_full_ids_kept(recs, doomed(recs, keep));
    lemma_without_prefix(f, c, f.len() as int);
    assert(f.take(f.len() as int) =~= f);
    assert(f.subrange(c, f.len() as int) =~= if f.len() <= keep { f } else { f.skip(f.len() - keep) });
}

/// No record a prune keeps is a doomed full or a differential applying to one.
pub proof fn lemma_prune_drops_dependents(recs: Seq<BackupRecord>, d: Seq<Seq<char>>, i: int)
    requires 0 <= i < kept_records(recs, d).len(),
    ensures !dropped(kept_records(recs, d)[i], d),
    decreases recs.len(),
{
    if recs.len() > 0 {
        let init = recs.drop_last();
        let k = kept_records(recs, d);
        if i < kept_records(init, d).len() {
            lemma_prune_drops_dependents(init, d, i);
            assert(k[i] == kept_records(init, d)[i]);
        }
    }
}

/// `ts.rem_euclid(1000)`: the millisecond part of a Unix millisecond timestamp.
fn millis_part(ts: i64) -> (r: i64)
    ensures r == ts as int % 1000, 0 <= r < 1000,
{
    let secs: i64 = if ts >= 0 { ts / 1000 } else { -((-(ts + 1)) / 1000) - 1 };
    assert(secs == ts as int / 1000) by (nonlinear_arith)
        requires
            ts >= 0 ==> secs == ts / 1000,
            ts < 0 ==> secs == -((-(ts + 1)) / 1000) - 1;
    let wide: i128 = (ts as i128) - (secs as i128) * 1000;
    assert(wide == ts as int % 1000 && 0 <= wide < 1000) by (nonlinear_arith)
        requires secs == ts as int / 1000, wide == ts - secs * 1000;
    wide as i64
}

proof fn lemma_find_id_from(recs: Seq<BackupRecord>, id: Seq<char>, i: int)
    ensures
        find_id_from(recs, id, i) matches Some(k) ==> 0 <= i <= k < recs.len() && recs[k].id@ == id,
    decreases recs.len() - i,
{
    if 0 <= i < recs.len() && recs[i].id@ != id {
        lemma_find_id_from(recs, id, i + 1);
    }
}

/// The position of the first record with id `id`.
fn find_record(recs: &[BackupRecord], id: &str) -> (r: Option<usize>)
    ensures
        match r {
            Some(i) => find_id(recs@, id@) == Some(i as int),
            None => find_id(recs@, id@) is None,
        },
        r matches Some(i) ==> i < recs@.len() && recs@[i as int].id@ == id@,
{
    proof { lemma_find_id_from(recs@, id@, 0); }
    let mut i: usize = 0;
    while i < recs.len()
        invariant
            i <= recs@.len(),
            find_id(recs@, id@) == find_id_from(recs@, id@, i as int),
        decreases recs.len() - i,
    {
        if str_eq(recs[i].id.as_str(), id) {
            return Some(i);
        }
        i = i + 1;
    }
    None
}

/// Parse a requested backup kind: `full` (also the default when absent),
/// `differential` or `diff`.
pub fn backup_kind_of(requested: Option<&str>) -> (r: Result<BackupKind, NucleusError>)
    ensures
        match requested {
            None => r == Ok::<BackupKind, NucleusError>(BackupKind::Full),
            Some(s) => if s@ == "full"@ {
                r == Ok::<BackupKind, NucleusError>(BackupKind::Full)
            } else if s@ == "differential"@ || s@ == "diff"@ {
                r == Ok::<BackupKind, NucleusError>(BackupKind::Differential)
            } else {
                r matches Err(NucleusError::InvalidRequest(m)) && m@ == "unknown backup kind: "@ + s@
            },
        },
{
    match requested {
        None => Ok(BackupKind::Full),
        Some(s) => {
            if str_eq(s, "full") {
                Ok(BackupKind::Full)
            } else if str_eq(s, "differential") || str_eq(s, "diff") {
                Ok(BackupKind::Differential)
            } else {
                let mut m = "unknown backup kind: ".to_owned();
                m.append(s);
                Err(NucleusError::invalid(m))
            }
        },
    }
}

/// Whether the `count`-th scheduled backup (counting from 1) is a full: every
/// `full_every`-th one starting with the first, or all of them when
/// `full_every` is at most 1.
pub open spec fn scheduled_full(count: int, full_every: int) -> bool {
    full_every <= 1 || count % full_every == 1
}

/// Whether the `count`-th scheduled backup is a full (see `scheduled_full`).
pub fn wants_full(count: u64, full_every: u32) -> (r: bool)
    ensures r == scheduled_full(count as int, full_every as int),
{
    full_every <= 1 || count % (full_every as u64) == 1
}

} // verus!
