//! The classification store: receives artifact-root records, partitions them
//! into ignored (kept) and selected (to clean) per the policy, renders the
//! report, and deletes the selected directories.

use vstd::prelude::*;
use chrono::TimeZone;
use crate::record::PathInfo;
use crate::record::PathInfoView;
use crate::text::dec_of;
use crate::text::u128_text;
use crate::text::u64_text;

verus! {

/// The age of a record in whole days at the moment `now_secs`: elapsed
/// seconds divided into 24-hour buckets. A modification time in the future
/// counts as age 0 (treated as very recent, biasing toward keeping).
pub open spec fn age_in_days(now_secs: u64, modified_secs: u64) -> nat {
    if modified_secs <= now_secs {
        ((now_secs - modified_secs) as nat) / 86400
    } else {
        0
    }
}

/// The classification rule: a record is kept (ignored) iff its size is at or
/// below the size threshold, or its age in whole days is strictly below the
/// age threshold.
pub open spec fn record_kept(keep_days: u32, keep_size: u64, r: PathInfoView, now_secs: u64) -> bool {
    r.size <= keep_size || age_in_days(now_secs, r.last_modified_secs) < keep_days
}

/// The records among `recs` that the policy keeps, in arrival order.
pub open spec fn kept_partition(recs: Seq<PathInfo>, keep_days: u32, keep_size: u64, now_secs: u64) -> Seq<
    PathInfo,
>
    decreases recs,
{
    if recs.len() == 0 {
        Seq::empty()
    } else {
        let rest = kept_partition(recs.drop_last(), keep_days, keep_size, now_secs);
        if record_kept(keep_days, keep_size, recs.last()@, now_secs) {
            rest.push(recs.last())
        } else {
            rest
        }
    }
}

/// The records among `recs` that the policy selects for cleanup, in arrival
/// order.
pub open spec fn selected_partition(recs: Seq<PathInfo>, keep_days: u32, keep_size: u64, now_secs: u64) -> Seq<
    PathInfo,
>
    decreases recs,
{
    if recs.len() == 0 {
        Seq::empty()
    } else {
        let rest = selected_partition(recs.drop_last(), keep_days, keep_size, now_secs);
        if record_kept(keep_days, keep_size, recs.last()@, now_secs) {
            rest
        } else {
            rest.push(recs.last())
        }
    }
}

/// Total of `size` over the records, as a mathematical sum.
pub open spec fn total_size(recs: Seq<PathInfo>) -> nat
    decreases recs,
{
    if recs.len() == 0 {
        0
    } else {
        total_size(recs.drop_last()) + recs.last().size as nat
    }
}

/// The sum of the sizes of two groups of records is the sum over both.
pub proof fn lemma_total_size_concat(a: Seq<PathInfo>, b: Seq<PathInfo>)
    ensures
        total_size(a + b) == total_size(a) + total_size(b),
    decreases b,
{
    if b.len() == 0 {
        assert(a + b =~= a);
    } else {
        assert((a + b).drop_last() =~= a + b.drop_last());
        assert((a + b).last() == b.last());
        lemma_total_size_concat(a, b.drop_last());
    }
}

/// A record whose size is exactly the size threshold is kept; one byte
/// larger, the size rule no longer keeps it and only the age rule can.
pub proof fn lemma_size_boundary(keep_days: u32, keep_size: u64, r: PathInfoView, now_secs: u64)
    ensures
        r.size == keep_size ==> record_kept(keep_days, keep_size, r, now_secs),
        r.size == keep_size + 1 ==> (record_kept(keep_days, keep_size, r, now_secs)
            <==> age_in_days(now_secs, r.last_modified_secs) < keep_days),
{
}

/// A record whose age is exactly the age threshold is not kept by age and is
/// a candidate unless its size keeps it; one day younger, it is always kept.
pub proof fn lemma_age_boundary(keep_days: u32, keep_size: u64, r: PathInfoView, now_secs: u64)
    ensures
        age_in_days(now_secs, r.last_modified_secs) == keep_days ==> (record_kept(
            keep_days,
            keep_size,
            r,
            now_secs,
        ) <==> r.size <= keep_size),
        keep_days > 0 && age_in_days(now_secs, r.last_modified_secs) == keep_days - 1
            ==> record_kept(keep_days, keep_size, r, now_secs),
{
}

proof fn lemma_kept_count(recs: Seq<PathInfo>, keep_days: u32, keep_size: u64, now_secs: u64, x: PathInfo)
    ensures
        kept_partition(recs, keep_days, keep_size, now_secs).to_multiset().count(x) == if record_kept(
            keep_days,
            keep_size,
            x@,
            now_secs,
        ) {
            recs.to_multiset().count(x)
        } else {
            0
        },
    decreases recs,
{
    broadcast use vstd::seq_lib::group_to_multiset_ensures;
    broadcast use vstd::multiset::group_multiset_properties;

    if recs.len() == 0 {
        assert(!recs.contains(x));
        assert(!kept_partition(recs, keep_days, keep_size, now_secs).contains(x));
    } else {
        let s = recs.drop_last();
        let l = recs.last();
        lemma_kept_count(s, keep_days, keep_size, now_secs, x);
        assert(recs =~= s.push(l));
        assert(recs.to_multiset() == s.to_multiset().insert(l));
    }
}

proof fn lemma_selected_count(recs: Seq<PathInfo>, keep_days: u32, keep_size: u64, now_secs: u64, x: PathInfo)
    ensures
        selected_partition(recs, keep_days, keep_size, now_secs).to_multiset().count(x)
            == if !record_kept(keep_days, keep_size, x@, now_secs) {
            recs.to_multiset().count(x)
        } else {
            0
        },
    decreases recs,
{
    broadcast use vstd::seq_lib::group_to_multiset_ensures;
    broadcast use vstd::multiset::group_multiset_properties;

    if recs.len() == 0 {
        assert(!recs.contains(x));
        assert(!selected_partition(recs, keep_days, keep_size, now_secs).contains(x));
    } else {
        let s = recs.drop_last();
        let l = recs.last();
        lemma_selected_count(s, keep_days, keep_size, now_secs, x);
        assert(recs =~= s.push(l));
        assert(recs.to_multiset() == s.to_multiset().insert(l));
    }
}

/// Two runs over an unchanged tree discover the same records, though the
/// concurrent walk may deliver them in any order; this law says the order
/// does not matter: any two arrival orders of the same records produce
/// ignored and selected partitions with identical membership.
pub proof fn lemma_partition_order_irrelevant(
    r1: Seq<PathInfo>,
    r2: Seq<PathInfo>,
    keep_days: u32,
    keep_size: u64,
    now_secs: u64,
)
    requires
        r1.to_multiset() == r2.to_multiset(),
    ensures
        kept_partition(r1, keep_days, keep_size, now_secs).to_multiset() == kept_partition(
            r2,
            keep_days,
            keep_size,
            now_secs,
        ).to_multiset(),
        selected_partition(r1, keep_days, keep_size, now_secs).to_multiset() == selected_partition(
            r2,
            keep_days,
            keep_size,
            now_secs,
        ).to_multiset(),
{
    let k1 = kept_partition(r1, keep_days, keep_size, now_secs).to_multiset();
    let k2 = kept_partition(r2, keep_days, keep_size, now_secs).to_multiset();
    assert forall|x: PathInfo| k1.count(x) == k2.count(x) by {
        lemma_kept_count(r1, keep_days, keep_size, now_secs, x);
        lemma_kept_count(r2, keep_days, keep_size, now_secs, x);
    }
    assert(k1 =~= k2);
    let s1 = selected_partition(r1, keep_days, keep_size, now_secs).to_multiset();
    let s2 = selected_partition(r2, keep_days, keep_size, now_secs).to_multiset();
    assert forall|x: PathInfo| s1.count(x) == s2.count(x) by {
        lemma_selected_count(r1, keep_days, keep_size, now_secs, x);
        lemma_selected_count(r2, keep_days, keep_size, now_secs, x);
    }
    assert(s1 =~= s2);
}

/// The text `bytefmt::format` renders for a byte count; a function of the
/// count alone.
pub uninterp spec fn byte_text_of(n: u64) -> Seq<char>;

/// Relies on bytefmt::format: renders a byte count with a human-readable
/// unit. The result depends on the count alone.
#[verifier::external_body]
fn byte_text(n: u64) -> (r: String)
    ensures
        r@ == byte_text_of(n),
{
    bytefmt::format(n)
}

/// Relies on chrono's TimeZone::timestamp_opt for Local: renders a Unix
/// timestamp as "%Y-%m-%d %H:%M" in the machine's local time zone. The zone
/// differs between machines, so nothing is claimed of the text. A timestamp
/// beyond chrono's representable range comes back as `LocalResult::None` and
/// renders as a fixed marker, so the call cannot panic.
#[verifier::external_body]
fn local_time_text(secs: u64) -> String {
    let stamp = match i64::try_from(secs) {
        Ok(s) => chrono::Local.timestamp_opt(s, 0),
        Err(_) => chrono::LocalResult::None,
    };
    match stamp {
        chrono::LocalResult::Single(d) => d.format("%Y-%m-%d %H:%M").to_string(),
        _ => String::from("(time out of range)"),
    }
}

/// Relies on remove_dir_all::remove_dir_all: removes the directory at `path`
/// and everything under it. Success depends on the filesystem, so nothing is
/// claimed beyond the shape of the result.
#[verifier::external_body]
fn remove_dir_recursive(path: &String) -> Result<(), String> {
    match remove_dir_all::remove_dir_all(std::path::Path::new(path.as_str())) {
        Ok(()) => Ok(()),
        Err(e) => Err(e.to_string()),
    }
}

/// The line the report shows for one record, given the rendered timestamp
/// `ts`: the owning project's name and the path, then the timestamp and the
/// human-readable size. A record whose owning directory has no name falls
/// back to a single-line layout.
pub open spec fn record_line(p: PathInfo, ts: Seq<char>) -> Seq<char> {
    if p.project@.len() > 0 {
        "  "@ + p.project@ + " : "@ + p.path@ + "\n      "@ + ts + ", "@ + byte_text_of(p.size)
            + "\n"@
    } else {
        " "@ + p.path@ + "      "@ + ts + "    "@ + byte_text_of(p.size) + "\n"@
    }
}

/// The report's lines for `recs`, one per record, given the rendered
/// timestamps `tss`.
pub open spec fn record_lines(recs: Seq<PathInfo>, tss: Seq<Seq<char>>) -> Seq<char>
    decreases recs,
{
    if recs.len() == 0 {
        Seq::empty()
    } else {
        record_lines(recs.drop_last(), tss.drop_last()) + record_line(recs.last(), tss.last())
    }
}

/// The whole report: the kept records under their heading (when any), the
/// selected records under theirs (when any), then the totals line with the
/// selected count, the total count and the freeable size `free`.
pub open spec fn report_text(
    ignores: Seq<PathInfo>,
    projects: Seq<PathInfo>,
    ig_ts: Seq<Seq<char>>,
    pr_ts: Seq<Seq<char>>,
    free: u64,
) -> Seq<char> {
    (if ignores.len() > 0 {
        "Ignoring the following project directories:\n"@ + record_lines(ignores, ig_ts)
    } else {
        Seq::<char>::empty()
    }) + (if projects.len() > 0 {
        "Selected the following project directories for cleaning:\n"@ + record_lines(
            projects,
            pr_ts,
        )
    } else {
        Seq::<char>::empty()
    }) + "Selected "@ + dec_of(projects.len()) + "/"@ + dec_of(projects.len() + ignores.len())
        + " projects, total freeable size: "@ + byte_text_of(free) + "\n"@
}

/// Renders the report line for one record from its timestamp text.
pub fn record_line_text(p: &PathInfo, ts: &str) -> (r: String)
    ensures
        r@ == record_line(*p, ts@),
{
    let mut out = String::new();
    if !p.project.as_str().is_empty() {
        out.append("  ");
        out.append(p.project.as_str());
        out.append(" : ");
        out.append(p.path.as_str());
        out.append("\n      ");
        out.append(ts);
        out.append(", ");
        let bt = byte_text(p.size);
        out.append(bt.as_str());
        out.append("\n");
    } else {
        out.append(" ");
        out.append(p.path.as_str());
        out.append("      ");
        out.append(ts);
        out.append("    ");
        let bt = byte_text(p.size);
        out.append(bt.as_str());
        out.append("\n");
    }
    proof {
        assert(out@ =~= record_line(*p, ts@));
    }
    out
}

fn append_record_lines(out: &mut String, recs: &Vec<PathInfo>) -> (tss: Ghost<Seq<Seq<char>>>)
    ensures
        tss@.len() == recs@.len(),
        final(out)@ == old(out)@ + record_lines(recs@, tss@),
{
    let ghost s = recs@;
    let ghost mut tss_acc: Seq<Seq<char>> = Seq::empty();
    let n = recs.len();
    let mut i: usize = 0;
    proof {
        assert(old(out)@ + record_lines(s.take(0), tss_acc) =~= old(out)@);
    }
    while i < n
        invariant
            0 <= i <= n,
            n == s.len(),
            s == recs@,
            tss_acc.len() == i,
            out@ == old(out)@ + record_lines(s.take(i as int), tss_acc),
        decreases n - i,
    {
        let ts = local_time_text(recs[i].last_modified_secs);
        let line = record_line_text(&recs[i], ts.as_str());
        proof {
            assert(s.take(i as int + 1).drop_last() =~= s.take(i as int));
            assert(tss_acc.push(ts@).drop_last() =~= tss_acc);
            assert((old(out)@ + record_lines(s.take(i as int), tss_acc)) + line@ =~= old(out)@ + (
            record_lines(s.take(i as int), tss_acc) + line@));
        }
        out.append(line.as_str());
        proof {
            tss_acc = tss_acc.push(ts@);
        }
        i = i + 1;
    }
    proof {
        assert(s.take(n as int) =~= s);
    }
    Ghost(tss_acc)
}

/// The error `clean` surfaces: the path whose deletion failed, and the text
/// of the underlying failure.
pub struct CleanError {
    pub path: String,
    pub message: String,
}

/// Stores discovered records partitioned by the classification policy.
/// `keep_size` is in bytes; `projects` holds the selected records and
/// `ignores` the kept ones, each in arrival order.
pub struct PathInfoStore {
    pub keep_days: u32,
    pub keep_size: u64,
    pub projects: Vec<PathInfo>,
    pub ignores: Vec<PathInfo>,
}

impl PathInfoStore {
    /// A fresh store for the given policy; the size threshold is given in
    /// whole megabytes and held in bytes.
    pub fn new(keep_days: u32, keep_size_mb: u64) -> (r: PathInfoStore)
        requires
            keep_size_mb <= u64::MAX / 1048576,
        ensures
            r.keep_days == keep_days,
            r.keep_size == keep_size_mb * 1048576,
            r.projects@ == Seq::<PathInfo>::empty(),
            r.ignores@ == Seq::<PathInfo>::empty(),
    {
        PathInfoStore {
            keep_days,
            keep_size: keep_size_mb * 1048576,
            projects: Vec::new(),
            ignores: Vec::new(),
        }
    }

    /// Classifies one record against the policy at the moment `now_secs` and
    /// appends it to exactly one of the two partitions.
    pub fn push(&mut self, info: PathInfo, now_secs: u64)
        ensures
            final(self).keep_days == old(self).keep_days,
            final(self).keep_size == old(self).keep_size,
            record_kept(old(self).keep_days, old(self).keep_size, info@, now_secs)
                ==> final(self).ignores@ == old(self).ignores@.push(info)
                && final(self).projects@ == old(self).projects@,
            !record_kept(old(self).keep_days, old(self).keep_size, info@, now_secs)
                ==> final(self).projects@ == old(self).projects@.push(info)
                && final(self).ignores@ == old(self).ignores@,
    {
        let days_elapsed: u64 = if now_secs >= info.last_modified_secs {
            (now_secs - info.last_modified_secs) / 86400
        } else {
            0
        };
        if info.size <= self.keep_size || days_elapsed < self.keep_days as u64 {
            self.ignores.push(info);
        } else {
            self.projects.push(info);
        }
    }

    /// Pushes every record of `infos` in order: afterwards each partition
    /// holds exactly its old records followed by its share of `infos`.
    pub fn push_all(&mut self, infos: Vec<PathInfo>, now_secs: u64)
        ensures
            final(self).keep_days == old(self).keep_days,
            final(self).keep_size == old(self).keep_size,
            final(self).ignores@ == old(self).ignores@ + kept_partition(
                infos@,
                old(self).keep_days,
                old(self).keep_size,
                now_secs,
            ),
            final(self).projects@ == old(self).projects@ + selected_partition(
                infos@,
                old(self).keep_days,
                old(self).keep_size,
                now_secs,
            ),
    {
        let ghost s = infos@;
        let n = infos.len();
        proof {
            assert(s.take(0) =~= Seq::<PathInfo>::empty());
            assert(old(self).ignores@ + Seq::<PathInfo>::empty() =~= old(self).ignores@);
            assert(old(self).projects@ + Seq::<PathInfo>::empty() =~= old(self).projects@);
        }
        let mut idx: usize = 0;
        while idx < n
            invariant
                0 <= idx <= n,
                n == s.len(),
                s == infos@,
                self.keep_days == old(self).keep_days,
                self.keep_size == old(self).keep_size,
                self.ignores@ == old(self).ignores@ + kept_partition(
                    s.take(idx as int),
                    old(self).keep_days,
                    old(self).keep_size,
                    now_secs,
                ),
                self.projects@ == old(self).projects@ + selected_partition(
                    s.take(idx as int),
                    old(self).keep_days,
                    old(self).keep_size,
                    now_secs,
                ),
            decreases n - idx,
        {
            let ghost before = s.take(idx as int);
            let ghost after = s.take(idx as int + 1);
            proof {
                assert(after.drop_last() =~= before);
                assert(after.last() == s[idx as int]);
            }
            let info = infos[idx].clone_record();
            proof {
                let kd = old(self).keep_days;
                let ks = old(self).keep_size;
                if record_kept(kd, ks, s[idx as int]@, now_secs) {
                    assert((old(self).ignores@ + kept_partition(before, kd, ks, now_secs)).push(
                        s[idx as int],
                    ) =~= old(self).ignores@ + kept_partition(before, kd, ks, now_secs).push(
                        s[idx as int],
                    ));
                } else {
                    assert((old(self).projects@ + selected_partition(before, kd, ks, now_secs)).push(
                        s[idx as int],
                    ) =~= old(self).projects@ + selected_partition(before, kd, ks, now_secs).push(
                        s[idx as int],
                    ));
                }
            }
            self.push(info, now_secs);
            idx = idx + 1;
        }
        proof {
            assert(s.take(n as int) =~= s);
        }
    }

    /// The freeable total: the sum of the sizes of the selected records, or
    /// `None` where that sum does not fit in a `u64`.
    pub fn freeable_size(&self) -> (r: Option<u64>)
        ensures
            r is Some <==> total_size(self.projects@) <= u64::MAX,
            r matches Some(v) ==> v == total_size(self.projects@),
    {
        let ghost s = self.projects@;
        let n = self.projects.len();
        let mut total: u64 = 0;
        let mut i: usize = 0;
        proof {
            assert(s.take(0) =~= Seq::<PathInfo>::empty());
        }
        while i < n
            invariant
                0 <= i <= n,
                n == s.len(),
                s == self.projects@,
                total == total_size(s.take(i as int)),
            decreases n - i,
        {
            proof {
                assert(s.take(i as int + 1).drop_last() =~= s.take(i as int));
                assert(s.take(i as int + 1).last() == s[i as int]);
            }
            total = match total.checked_add(self.projects[i].size) {
                Some(t) => t,
                None => {
                    proof {
                        assert(s =~= s.take(i as int + 1) + s.skip(i as int + 1));
                        lemma_total_size_concat(s.take(i as int + 1), s.skip(i as int + 1));
                    }
                    return None;
                },
            };
            i = i + 1;
        }
        proof {
            assert(s.take(n as int) =~= s);
        }
        Some(total)
    }

    /// Renders the report: the kept records, the selected records, and the
    /// totals line, as `report_text` lays them out for some rendering of each
    /// record's timestamp. Returns `None` exactly where the freeable total
    /// does not fit in a `u64`.
    pub fn report(&self) -> (r: Option<String>)
        ensures
            r is Some <==> total_size(self.projects@) <= u64::MAX,
            r matches Some(text) ==> exists|ig_ts: Seq<Seq<char>>, pr_ts: Seq<Seq<char>>|
                ig_ts.len() == self.ignores@.len() && pr_ts.len() == self.projects@.len() && text@
                    == #[trigger] report_text(
                    self.ignores@,
                    self.projects@,
                    ig_ts,
                    pr_ts,
                    total_size(self.projects@) as u64,
                ),
    {
        let free: u64 = match self.freeable_size() {
            Some(f) => f,
            None => {
                return None;
            },
        };
        let mut out = String::new();
        let ghost mut ig_ts: Seq<Seq<char>> = Seq::empty();
        let ghost mut pr_ts: Seq<Seq<char>> = Seq::empty();
        if self.ignores.len() > 0 {
            out.append("Ignoring the following project directories:\n");
            let tss = append_record_lines(&mut out, &self.ignores);
            proof {
                ig_ts = tss@;
            }
        }
        let ghost head = out@;
        proof {
            assert(head =~= (if self.ignores@.len() > 0 {
                "Ignoring the following project directories:\n"@ + record_lines(
                    self.ignores@,
                    ig_ts,
                )
            } else {
                Seq::<char>::empty()
            }));
        }
        if self.projects.len() > 0 {
            out.append("Selected the following project directories for cleaning:\n");
            let tss = append_record_lines(&mut out, &self.projects);
            proof {
                pr_ts = tss@;
            }
        }
        let ghost mid = out@;
        proof {
            assert(mid =~= head + (if self.projects@.len() > 0 {
                "Selected the following project directories for cleaning:\n"@ + record_lines(
                    self.projects@,
                    pr_ts,
                )
            } else {
                Seq::<char>::empty()
            }));
        }
        out.append("Selected ");
        let sel_text = u64_text(self.projects.len() as u64);
        out.append(sel_text.as_str());
        out.append("/");
        let total_count: u128 = self.projects.len() as u128 + self.ignores.len() as u128;
        let tot_text = u128_text(total_count);
        out.append(tot_text.as_str());
        out.append(" projects, total freeable size: ");
        let free_text = byte_text(free);
        out.append(free_text.as_str());
        out.append("\n");
        proof {
            assert(out@ =~= report_text(
                self.ignores@,
                self.projects@,
                ig_ts,
                pr_ts,
                total_size(self.projects@) as u64,
            ));
        }
        Some(out)
    }

    /// Deletes the directory of every selected record, in order, stopping at
    /// the first failure; the surfaced error names the path of a selected
    /// record. Kept records are never touched.
    pub fn clean(&self) -> (r: Result<(), CleanError>)
        ensures
            r matches Err(e) ==> exists|i: int|
                0 <= i < self.projects@.len() && e.path == (#[trigger] self.projects@[i]).path,
    {
        let n = self.projects.len();
        let mut i: usize = 0;
        while i < n
            invariant
                0 <= i <= n,
                n == self.projects@.len(),
            decreases n - i,
        {
            match remove_dir_recursive(&self.projects[i].path) {
                Ok(()) => {},
                Err(m) => {
                    return Err(
                        CleanError { path: self.projects[i].path.clone(), message: m },
                    );
                },
            }
            i = i + 1;
        }
        Ok(())
    }
}

} // verus!
