use vstd::prelude::*;

verus! {

/// The fixed-point value of priority 1.0.
pub const UNIT: u64 = 1_000_000;

/// An item is active while its priority is at least this (0.1).
pub const ACTIVE_THRESHOLD: u64 = 100_000;

/// Seconds in one step of decay (a day).
pub const SEC_OF_DECAY: u64 = 86_400;

/// One day of decay multiplies the priority by `DECAY_NUM / DECAY_DEN` (0.925).
pub const DECAY_NUM: u64 = 925;

/// The divisor of the daily factor.
pub const DECAY_DEN: u64 = 1_000;

/// What the list keeps of one item.
#[derive(Debug, Clone)]
pub struct Info {
    /// Priority in millionths.
    pub prio: u64,
    /// Seconds since the epoch at the last touch.
    pub last: u64,
    pub active: bool,
    pub note: String,
}

/// An item as contracts see it.
pub ghost struct InfoView {
    pub prio: nat,
    pub last: nat,
    pub active: bool,
    pub note: Seq<char>,
}

impl View for Info {
    type V = InfoView;

    open spec fn view(&self) -> InfoView {
        InfoView {
            prio: self.prio as nat,
            last: self.last as nat,
            active: self.active,
            note: self.note@,
        }
    }
}

/// The priority after one day: multiplied by 0.925, rounded down.
pub open spec fn decay_once(p: nat) -> nat {
    p * (DECAY_NUM as nat) / (DECAY_DEN as nat)
}

/// The priority after `days` whole days.
pub open spec fn decayed(p: nat, days: nat) -> nat
    decreases days,
{
    if days == 0 {
        p
    } else {
        decay_once(decayed(p, (days - 1) as nat))
    }
}

/// Whole days between `last` and `now`; none if `now` is the earlier.
pub open spec fn elapsed_days(now: nat, last: nat) -> nat {
    if now >= last {
        ((now - last) / (SEC_OF_DECAY as int)) as nat
    } else {
        0
    }
}

/// The item as it stands at `now`: its priority decayed by the whole days since
/// the last touch, and active iff that priority reaches the threshold.
pub open spec fn refreshed(info: InfoView, now: nat) -> InfoView {
    let p = decayed(info.prio, elapsed_days(now, info.last));
    InfoView { prio: p, last: info.last, active: p >= ACTIVE_THRESHOLD as nat, note: info.note }
}

/// The item after a touch at `now`: one unit more, up to the largest priority
/// that the type holds.
pub open spec fn raised(info: InfoView, now: nat) -> InfoView {
    InfoView {
        prio: if info.prio + UNIT <= u64::MAX {
            info.prio + UNIT as nat
        } else {
            u64::MAX as nat
        },
        last: now,
        active: true,
        note: info.note,
    }
}

/// A new item, touched at `now`.
pub open spec fn fresh(now: nat) -> InfoView {
    InfoView { prio: UNIT as nat, last: now, active: true, note: Seq::empty() }
}

/// `active` says what the priority says: the item is active iff its priority
/// reaches the threshold.
pub open spec fn consistent(info: InfoView) -> bool {
    info.active == (info.prio >= ACTIVE_THRESHOLD as nat)
}

/// The item with its note replaced.
pub open spec fn annotated(info: InfoView, note: Seq<char>) -> InfoView {
    InfoView { prio: info.prio, last: info.last, active: info.active, note: note }
}

/// A day of decay never raises a priority, and lowers every priority but zero.
pub proof fn lemma_decay_once_shrinks(p: nat)
    ensures
        decay_once(p) <= p,
        p > 0 ==> decay_once(p) < p,
{
    assert(p * 925 / 1000 <= p) by (nonlinear_arith);
    assert(p > 0 ==> p * 925 / 1000 < p) by (nonlinear_arith);
}

/// Once the priority has reached zero it stays there.
pub proof fn lemma_decayed_zero_stays(p: nat, i: nat, days: nat)
    requires
        i <= days,
        decayed(p, i) == 0,
    ensures
        decayed(p, days) == 0,
    decreases days,
{
    if i < days {
        lemma_decayed_zero_stays(p, i, (days - 1) as nat);
    }
}

/// The priority `p` after `days` whole days.
pub fn decay(p: u64, days: u64) -> (r: u64)
    ensures
        r == decayed(p as nat, days as nat),
{
    let mut cur: u64 = p;
    let mut i: u64 = 0;
    while i < days && cur > 0
        invariant
            i <= days,
            cur == decayed(p as nat, i as nat),
        decreases days - i,
    {
        proof {
            lemma_decay_once_shrinks(cur as nat);
        }
        let wide: u128 = (cur as u128) * (DECAY_NUM as u128) / (DECAY_DEN as u128);
        cur = wide as u64;
        i = i + 1;
    }
    proof {
        if i < days {
            lemma_decayed_zero_stays(p as nat, i as nat, days as nat);
        }
    }
    cur
}

/// Brings one item up to `now`.
pub fn refresh(info: Info, now: u64) -> (r: Info)
    ensures
        r@ == refreshed(info@, now as nat),
{
    let days: u64 = if now >= info.last {
        (now - info.last) / SEC_OF_DECAY
    } else {
        0
    };
    let p: u64 = decay(info.prio, days);
    Info { prio: p, last: info.last, active: p >= ACTIVE_THRESHOLD, note: info.note }
}

/// Touches one item at `now`.
pub fn raise(info: Info, now: u64) -> (r: Info)
    ensures
        r@ == raised(info@, now as nat),
{
    Info { prio: info.prio.saturating_add(UNIT), last: now, active: true, note: info.note }
}

} // verus!
