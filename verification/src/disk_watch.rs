//! Watching the startup disk: when a filling disk is announced to the user,
//! and the daily samples of its use kept for the fill forecast.
use vstd::prelude::*;

verus! {

/// A notification about a filling disk.
#[derive(Clone, Copy, Debug, PartialEq, Eq, Structural)]
pub enum DiskAlert {
    /// Nothing to announce.
    Quiet,
    /// The disk is more than 90 % full.
    Above90,
    /// The disk is 80 % full.
    Above80,
}

/// One step of the disk watch: from the level last announced (`last`: 0, 80
/// or 90) and the disk's use in percent, what to announce and the level to
/// remember. Reaching 90 % is announced once, then 80 % once (only when 90 %
/// has not been announced since); falling under 80 % forgets both.
pub open spec fn disk_alert_of(last: u8, pct: u8) -> (u8, DiskAlert) {
    if pct >= 90 && last < 90 {
        (90, DiskAlert::Above90)
    } else if pct >= 80 && last < 80 {
        (80, DiskAlert::Above80)
    } else if pct < 80 && last != 0 {
        (0, DiskAlert::Quiet)
    } else {
        (last, DiskAlert::Quiet)
    }
}

/// One step of the disk watch.
pub fn disk_alert_step(last: u8, pct: u8) -> (r: (u8, DiskAlert))
    ensures
        r == disk_alert_of(last, pct),
{
    if pct >= 90 && last < 90 {
        (90, DiskAlert::Above90)
    } else if pct >= 80 && last < 80 {
        (80, DiskAlert::Above80)
    } else if pct < 80 && last != 0 {
        (0, DiskAlert::Quiet)
    } else {
        (last, DiskAlert::Quiet)
    }
}

/// Law: the watch announces nothing under 80 % and then forgets what it
/// announced; it announces 90 % whenever the disk is at least 90 % full and
/// 90 % was not announced last; it announces only at 80 % or more; and the
/// level it remembers stays one of 0, 80 and 90.
pub proof fn law_disk_alert_levels(last: u8, pct: u8)
    ensures
        pct < 80 ==> disk_alert_of(last, pct) == (0u8, DiskAlert::Quiet),
        pct >= 90 && last < 90 ==> disk_alert_of(last, pct).1 == DiskAlert::Above90,
        disk_alert_of(last, pct).1 != DiskAlert::Quiet ==> pct >= 80,
        disk_alert_of(last, pct).1 == DiskAlert::Above80 ==> pct >= 80 && last < 80,
        (last == 0 || last == 80 || last == 90) ==> {
            let l = disk_alert_of(last, pct).0;
            l == 0 || l == 80 || l == 90
        },
{
}

/// Law: a reading announced once is not announced again: checking the same
/// use twice in a row announces nothing the second time and keeps the level.
pub proof fn law_disk_alert_once(last: u8, pct: u8)
    ensures
        ({
            let first = disk_alert_of(last, pct);
            &&& disk_alert_of(first.0, pct).1 == DiskAlert::Quiet
            &&& disk_alert_of(first.0, pct).0 == first.0
        }),
{
}

/// The text of an announcement.
pub fn disk_alert_text(a: DiskAlert) -> (r: Option<&'static str>)
    ensures
        a == DiskAlert::Quiet <==> r is None,
        a == DiskAlert::Above90 ==> (r matches Some(t) && t@ == "Votre disque est rempli à plus de 90 %. Nettoyez maintenant."@),
        a == DiskAlert::Above80 ==> (r matches Some(t) && t@ == "Votre disque est rempli à 80 %."@),
{
    match a {
        DiskAlert::Quiet => None,
        DiskAlert::Above90 => Some("Votre disque est rempli à plus de 90 %. Nettoyez maintenant."),
        DiskAlert::Above80 => Some("Votre disque est rempli à 80 %."),
    }
}

/// A daily sample of the disk's use: when (seconds since 1970), bytes used
/// and bytes in all.
#[derive(Clone, Copy, Debug, PartialEq, Eq, Structural)]
pub struct DiskSample {
    pub ts: u64,
    pub used: u64,
    pub total: u64,
}

/// Seconds from `ts` to `now` as 64-bit unsigned arithmetic counts them
/// (wrapping when `ts` is later than `now`).
pub open spec fn elapsed(now: u64, ts: u64) -> int {
    if now >= ts {
        now - ts
    } else {
        now + 0x1_0000_0000_0000_0000 - ts
    }
}

fn elapsed_exec(now: u64, ts: u64) -> (r: u64)
    ensures
        r == elapsed(now, ts),
{
    if now >= ts {
        now - ts
    } else {
        (u64::MAX - ts) + now + 1
    }
}

/// A sample is due when there is none yet, or the last is more than 23
/// hours old.
pub open spec fn sample_due(samples: Seq<DiskSample>, now: u64) -> bool {
    samples.len() == 0 || elapsed(now, samples.last().ts) > 23 * 3600
}

/// The samples kept: those less than 90 days old.
pub open spec fn kept_samples(samples: Seq<DiskSample>, now: u64) -> Seq<DiskSample> {
    samples.filter(|s: DiskSample| elapsed(now, s.ts) < 90 * 86400)
}

/// The history after a sample is taken at `now`: `None` when no sample is
/// due; else the history with the new sample appended, samples of 90 days
/// or more dropped.
pub fn record_disk_sample(samples: Vec<DiskSample>, now: u64, used: u64, total: u64) -> (r: Option<Vec<DiskSample>>)
    ensures
        !sample_due(samples@, now) ==> r is None,
        sample_due(samples@, now) ==> (r matches Some(v) && v@ == kept_samples(
            samples@.push(DiskSample { ts: now, used, total }),
            now,
        )),
{
    if samples.len() > 0 && elapsed_exec(now, samples[samples.len() - 1].ts) <= 23 * 3600 {
        return None;
    }
    let mut all = samples;
    all.push(DiskSample { ts: now, used, total });
    let ghost input = all@;
    let mut out: Vec<DiskSample> = Vec::new();
    let mut i: usize = 0;
    while i < all.len()
        invariant
            input == all@,
            i <= all@.len(),
            out@ == all@.take(i as int).filter(|s: DiskSample| elapsed(now, s.ts) < 90 * 86400),
        decreases all.len() - i,
    {
        let s = all[i];
        proof {
            assert(all@.take(i + 1).drop_last() =~= all@.take(i as int));
            all@.take(i as int).lemma_filter_push(s, |s: DiskSample| elapsed(now, s.ts) < 90 * 86400);
            assert(all@.take(i as int).push(s) =~= all@.take(i + 1));
        }
        if elapsed_exec(now, s.ts) < 90 * 86400 {
            out.push(s);
        }
        i += 1;
    }
    assert(all@.take(i as int) =~= all@);
    Some(out)
}

} // verus!
