//! The tuner of one size class.
//!
//! It is told of every allocation and every free of its size class. It
//! keeps a liveness counter and a reuse counter on them, and from the two
//! it estimates the demand: how many fresh blocks a window of coming events
//! will need. When the cache has run dry it fetches that many from the
//! reserve; when the cache holds more than twice that many it hands the
//! surplus back.
//!
//! The reserve is reached through three callbacks: `check` tells how many
//! free blocks a bin holds, `get` pulls blocks into a bin, `ret` pushes
//! blocks out of it.

use crate::apf::constants::{
    REUSE_BURST_LENGTH,
    REUSE_HIBERNATION_PERIOD,
    TARGET_APF,
    USE_ALLOCATION_CLOCK,
};
use crate::apf::liveness_counter::{lemma_sum_upto_bound, LivenessCounter, LivenessView, MAX_CLOCK};
use crate::apf::reuse_counter::{ReuseCounter, ReuseView};
use crate::apf::trace::Event;
use crate::ratio::{ceil_div, clamp_to_usize, Mixed, MAX_WHOLE};
use vstd::arithmetic::div_mod::{
    lemma_fundamental_div_mod_converse_div,
    lemma_fundamental_div_mod_converse_mod,
};
use vstd::prelude::*;

verus! {

/// The state of a tuner.
pub struct TunerView {
    /// The size class, as the callbacks are told it.
    pub id: usize,
    /// The number of events so far: of allocations on the allocation clock,
    /// of allocations and frees on the event clock.
    pub time: nat,
    /// The number of fetches so far.
    pub fetch_count: nat,
    /// The allocation-free period aimed at.
    pub target_apf: nat,
    /// Whether time is counted in allocations only.
    pub allocation_clock: bool,
    pub liveness: LivenessView,
    pub reuse: ReuseView,
    /// The time and the window of every fetch, where a record is kept.
    pub record: Option<Seq<(usize, usize)>>,
}

impl TunerView {
    /// The state of a new tuner.
    pub open spec fn initial(
        id: usize,
        target_apf: nat,
        burst_length: nat,
        hibernation_period: nat,
        allocation_clock: bool,
        use_record: bool,
    ) -> TunerView {
        TunerView {
            id,
            time: 0,
            fetch_count: 0,
            target_apf,
            allocation_clock,
            liveness: LivenessView { clock: 1, alloc_times: Seq::empty(), free_times: Seq::empty() },
            reuse: ReuseView {
                burst_length,
                hibernation_period,
                n: 0,
                trace: Some(Seq::empty()),
                table: None,
            },
            record: if use_record {
                Some(Seq::empty())
            } else {
                None
            },
        }
    }

    /// The window over which demand is asked: the time that is left until
    /// `target_apf` times the number of fetches, this one counted; and
    /// `target_apf` where that time has passed.
    pub open spec fn dapf(self) -> int {
        let threshold = self.target_apf * (self.fetch_count + 1);
        if self.time >= threshold {
            self.target_apf as int
        } else {
            threshold - self.time
        }
    }

    /// The demand over a window of `k` events, as numerator and
    /// denominator: `None` for a window longer than the time so far, and
    /// until the reuse counter has a table.
    ///
    /// On the allocation clock the demand is `k - reuse(k)`. On the event
    /// clock it is `liveness(k) - liveness(0) - reuse(k)`. The fraction is
    /// written over the product of the denominators of its terms.
    pub open spec fn demand(self, k: int) -> Option<(int, int)> {
        if k > self.time {
            None
        } else {
            match self.reuse.reuse(k) {
                None => None,
                Some((c, q)) => if self.allocation_clock {
                    Some((k * q - c, q))
                } else {
                    let a = self.liveness.liveness_numerator(k);
                    let i = self.liveness.windows(k);
                    let b = self.liveness.liveness_numerator(0);
                    let j = self.liveness.windows(0);
                    Some((a * j * q - b * i * q - c * i * j, i * j * q))
                },
            }
        }
    }

    /// The state after an allocation of `slot` has been counted: it is an
    /// event, the reuse counter is told of it and ticked, and on the event
    /// clock the liveness counter is ticked and told of it.
    pub open spec fn after_malloc(self, slot: usize) -> TunerView {
        TunerView {
            time: self.time + 1,
            liveness: if self.allocation_clock {
                self.liveness
            } else {
                LivenessView {
                    clock: self.liveness.clock + 1,
                    alloc_times: self.liveness.alloc_times.push(self.liveness.clock + 1),
                    ..self.liveness
                }
            },
            reuse: self.reuse.after_event(Event::Alloc(slot)).after_tick(),
            ..self
        }
    }

    /// The state after a free of `slot` has been counted: the reuse counter
    /// is told of it; on the event clock it is an event, and both counters
    /// are ticked and the liveness counter is told of it.
    pub open spec fn after_free(self, slot: usize) -> TunerView {
        if self.allocation_clock {
            TunerView { reuse: self.reuse.after_event(Event::Free(slot)), ..self }
        } else {
            TunerView {
                time: self.time + 1,
                liveness: LivenessView {
                    clock: self.liveness.clock + 1,
                    free_times: self.liveness.free_times.push(self.liveness.clock + 1),
                    ..self.liveness
                },
                reuse: self.reuse.after_event(Event::Free(slot)).after_tick(),
                ..self
            }
        }
    }

    /// The number of blocks to fetch when the cache has run dry: the
    /// demand over the window `dapf`, rounded up, and zero for a negative
    /// demand; `None` where there is no demand to go by.
    pub open spec fn fetch_amount(self) -> Option<usize> {
        match self.demand(self.dapf()) {
            Some((num, den)) => Some(clamp_to_usize(ceil_div(num, den))),
            None => None,
        }
    }

    /// The state after a fetch: the fetch is counted and, where a record is
    /// kept, recorded with its time and window.
    pub open spec fn after_fetch(self) -> TunerView {
        TunerView {
            fetch_count: self.fetch_count + 1,
            record: match self.record {
                Some(record) => Some(record.push((self.time as usize, self.dapf() as usize))),
                None => None,
            },
            ..self
        }
    }

    /// The state after an allocation of `slot` for which `check` has
    /// answered `free_blocks`, and whether the allocation was served: it
    /// was, unless the cache had run dry and there was no demand to go by.
    pub open spec fn malloc_outcome(self, slot: usize, free_blocks: u32) -> (TunerView, bool) {
        let counted = self.after_malloc(slot);
        if free_blocks != 0 {
            (counted, true)
        } else if counted.fetch_amount() is Some {
            (counted.after_fetch(), true)
        } else {
            (counted, false)
        }
    }

    /// The demand over the window `dapf`, where there is one and it is not
    /// negative.
    pub open spec fn usable_demand(self) -> Option<(int, int)> {
        match self.demand(self.dapf()) {
            Some((num, den)) => if num >= 0 {
                Some((num, den))
            } else {
                None
            },
            None => None,
        }
    }

    /// The number of blocks to hand back when the cache holds
    /// `free_blocks`: one more than the usable demand rounded up, where the
    /// cache holds at least twice the demand and one; `None` where it holds
    /// fewer, or there is no usable demand.
    pub open spec fn return_amount(self, free_blocks: u32) -> Option<u32> {
        match self.usable_demand() {
            Some((num, den)) => if free_blocks * den >= 2 * num + den {
                Some((ceil_div(num, den) + 1) as u32)
            } else {
                None
            },
            None => None,
        }
    }
}

/// The tuner of one size class, with the callbacks `check`, `get` and `ret`
/// into the reserve.
pub struct ApfTuner<C, G, R> {
    id: usize,
    l_counter: LivenessCounter,
    r_counter: ReuseCounter,
    time: usize,
    fetch_count: usize,
    target_apf: usize,
    use_allocation_clock: bool,
    check: C,
    get: G,
    ret: R,
    record: Option<Vec<(usize, usize)>>,
}

impl<C, G, R> View for ApfTuner<C, G, R> {
    type V = TunerView;

    closed spec fn view(&self) -> TunerView {
        TunerView {
            id: self.id,
            time: self.time as nat,
            fetch_count: self.fetch_count as nat,
            target_apf: self.target_apf as nat,
            allocation_clock: self.use_allocation_clock,
            liveness: self.l_counter@,
            reuse: self.r_counter@,
            record: match self.record {
                Some(record) => Some(record@),
                None => None,
            },
        }
    }
}

impl<C: Fn(usize) -> u32, G: Fn(usize, usize) -> bool, R: Fn(usize, u32) -> bool> ApfTuner<
    C,
    G,
    R,
> {
    /// The callbacks `check`, `get` and `ret`.
    pub closed spec fn callbacks(&self) -> (C, G, R) {
        (self.check, self.get, self.ret)
    }

    /// The callbacks take every argument.
    pub open spec fn callbacks_total(check: C, get: G, ret: R) -> bool {
        &&& forall|id: usize| call_requires(check, (id,))
        &&& forall|id: usize, amount: usize| call_requires(get, (id, amount))
        &&& forall|id: usize, amount: u32| call_requires(ret, (id, amount))
    }

    /// The counters are well formed and the callbacks take every argument.
    /// No more fetches are counted than events, and `target_apf` times the
    /// fetches is at most twice the time. On the event clock the liveness
    /// counter is one timestep ahead of the time and has seen no more than
    /// one allocation or free per event.
    pub closed spec fn wf(&self) -> bool {
        &&& self.l_counter.wf()
        &&& self.r_counter.wf()
        &&& Self::callbacks_total(self.check, self.get, self.ret)
        &&& self.fetch_count <= self.time
        &&& self.target_apf * self.fetch_count <= 2 * self.time
        &&& !self.use_allocation_clock ==> {
            &&& self.l_counter@.clock == self.time + 1
            &&& self.l_counter@.alloc_times.len() + self.l_counter@.free_times.len() <= self.time
        }
    }

    /// A tuner can take a further event while its time can still be
    /// counted, and on the event clock while the liveness counter can still
    /// be ticked.
    pub open spec fn ready(&self) -> bool {
        &&& self@.time < usize::MAX
        &&& !self@.allocation_clock ==> self@.time + 1 < MAX_CLOCK
    }

    /// A tuner for the size class `id` with the settings of
    /// `crate::apf::constants`, which keeps a record if `use_record`.
    pub fn new(id: usize, check: C, get: G, ret: R, use_record: bool) -> (tuner: Self)
        requires
            Self::callbacks_total(check, get, ret),
        ensures
            tuner.wf(),
            tuner.callbacks() == (check, get, ret),
            tuner@ == TunerView::initial(
                id,
                TARGET_APF as nat,
                REUSE_BURST_LENGTH as nat,
                REUSE_HIBERNATION_PERIOD as nat,
                USE_ALLOCATION_CLOCK,
                use_record,
            ),
    {
        Self::with_settings(
            id,
            check,
            get,
            ret,
            use_record,
            TARGET_APF,
            REUSE_BURST_LENGTH,
            REUSE_HIBERNATION_PERIOD,
            USE_ALLOCATION_CLOCK,
        )
    }

    /// A tuner for the size class `id` with settings of the caller's.
    pub fn with_settings(
        id: usize,
        check: C,
        get: G,
        ret: R,
        use_record: bool,
        target_apf: usize,
        burst_length: usize,
        hibernation_period: usize,
        use_allocation_clock: bool,
    ) -> (tuner: Self)
        requires
            Self::callbacks_total(check, get, ret),
        ensures
            tuner.wf(),
            tuner.callbacks() == (check, get, ret),
            tuner@ == TunerView::initial(
                id,
                target_apf as nat,
                burst_length as nat,
                hibernation_period as nat,
                use_allocation_clock,
                use_record,
            ),
    {
        let tuner = ApfTuner {
            id,
            l_counter: LivenessCounter::new(),
            r_counter: ReuseCounter::new(burst_length, hibernation_period),
            time: 0,
            fetch_count: 0,
            target_apf,
            use_allocation_clock,
            check,
            get,
            ret,
            record: if use_record {
                Some(Vec::new())
            } else {
                None
            },
        };
        assert(tuner.target_apf * tuner.fetch_count == 0) by (nonlinear_arith)
            requires
                tuner.fetch_count == 0,
        ;
        tuner
    }

    /// Names the size class `id`.
    pub fn set_id(&mut self, id: usize)
        requires
            old(self).wf(),
        ensures
            final(self).wf(),
            final(self).callbacks() == old(self).callbacks(),
            final(self)@ == (TunerView { id, ..old(self)@ }),
    {
        self.id = id;
    }

    /// The window over which demand is asked.
    pub fn calculate_dapf(&self) -> (dapf: u128)
        ensures
            dapf == self@.dapf(),
    {
        let target = self.target_apf as u128;
        let fetches = self.fetch_count as u128 + 1;
        assert(target * fetches <= 0xffff_ffff_ffff_ffff * 0x1_0000_0000_0000_0000)
            by (nonlinear_arith)
            requires
                0 <= target <= 0xffff_ffff_ffff_ffff,
                0 <= fetches <= 0x1_0000_0000_0000_0000,
        ;
        let threshold = target * fetches;
        if self.time as u128 >= threshold {
            target
        } else {
            threshold - self.time as u128
        }
    }

    /// The demand over a window of `k` events, as a mixed number.
    pub fn demand(&self, k: usize) -> (demand: Option<Mixed>)
        requires
            self.wf(),
        ensures
            match (demand, self@.demand(k as int)) {
                (Some(m), Some((num, den))) => {
                    &&& m.is(num, den)
                    &&& -MAX_WHOLE <= m.whole <= MAX_WHOLE
                    &&& m.denominator <= MAX_WHOLE
                },
                (None, None) => true,
                _ => false,
            },
    {
        if k > self.time {
            return None;
        }
        let reuse = match self.r_counter.reuse(k) {
            Some(reuse) => reuse,
            None => {
                return None;
            },
        };
        let mc = reuse.to_mixed();
        let q: i128 = mc.denominator;
        let ghost c = reuse.numerator as int;
        proof {
            mc.lemma_is(c, q as int, 0);
        }
        if self.use_allocation_clock {
            let ghost num = k * q - c;
            if mc.part == 0 {
                let m = Mixed { whole: k as i128 - mc.whole, part: 0, denominator: q };
                proof {
                    assert(num == (k - mc.whole) * q + 0) by (nonlinear_arith)
                        requires
                            num == k * q - c,
                            c == mc.whole * q + mc.part,
                            mc.part == 0,
                    ;
                    lemma_fundamental_div_mod_converse_div(num, q as int, k - mc.whole, 0);
                    lemma_fundamental_div_mod_converse_mod(num, q as int, k - mc.whole, 0);
                }
                Some(m)
            } else {
                let m = Mixed {
                    whole: k as i128 - mc.whole - 1,
                    part: q - mc.part,
                    denominator: q,
                };
                proof {
                    assert(num == (k - mc.whole - 1) * q + (q - mc.part)) by (nonlinear_arith)
                        requires
                            num == k * q - c,
                            c == mc.whole * q + mc.part,
                    ;
                    lemma_fundamental_div_mod_converse_div(
                        num,
                        q as int,
                        k - mc.whole - 1,
                        q - mc.part,
                    );
                    lemma_fundamental_div_mod_converse_mod(
                        num,
                        q as int,
                        k - mc.whole - 1,
                        q - mc.part,
                    );
                }
                Some(m)
            }
        } else {
            let over_k = self.l_counter.liveness(k);
            let over_none = self.l_counter.liveness(0);
            let ma = over_k.to_mixed();
            let mb = over_none.to_mixed();
            let i: i128 = ma.denominator;
            let j: i128 = mb.denominator;
            let ghost a = over_k.numerator as int;
            let ghost b = over_none.numerator as int;
            let ghost num = a * j * q - b * i * q - c * i * j;
            let ghost den = i * j * q;
            proof {
                ma.lemma_is(a, i as int, 0);
                mb.lemma_is(b, j as int, 0);
                assert(0 < i * j <= 0x1_0000_0000 * 0x1_0000_0000) by (nonlinear_arith)
                    requires
                        0 < i <= 0x1_0000_0000,
                        0 < j <= 0x1_0000_0000,
                ;
                assert(0 < i * q <= 0x1_0000_0000 * 0x1_0000_0000) by (nonlinear_arith)
                    requires
                        0 < i <= 0x1_0000_0000,
                        0 < q <= 0x1_0000_0000,
                ;
                assert(0 < j * q <= 0x1_0000_0000 * 0x1_0000_0000) by (nonlinear_arith)
                    requires
                        0 < j <= 0x1_0000_0000,
                        0 < q <= 0x1_0000_0000,
                ;
            }
            let ij: i128 = i * j;
            let iq: i128 = i * q;
            let jq: i128 = j * q;
            proof {
                assert(0 < ij * q <= 0x1_0000_0000_0000_0000 * 0x1_0000_0000) by (nonlinear_arith)
                    requires
                        0 < ij <= 0x1_0000_0000_0000_0000,
                        0 < q <= 0x1_0000_0000,
                ;
                assert(0 <= ma.part * jq < ij * q) by (nonlinear_arith)
                    requires
                        0 <= ma.part < i,
                        jq == j * q,
                        ij == i * j,
                        0 < j,
                        0 < q,
                ;
                assert(0 <= mb.part * iq < ij * q) by (nonlinear_arith)
                    requires
                        0 <= mb.part < j,
                        iq == i * q,
                        ij == i * j,
                        0 < i,
                        0 < q,
                ;
                assert(0 <= mc.part * ij < ij * q) by (nonlinear_arith)
                    requires
                        0 <= mc.part < q,
                        0 < ij,
                ;
            }
            let d: i128 = ij * q;
            let whole: i128 = ma.whole - mb.whole - mc.whole;
            let part: i128 = ma.part * jq - mb.part * iq - mc.part * ij;
            proof {
                assert(a * j * q == ma.whole * d + ma.part * jq) by (nonlinear_arith)
                    requires
                        a == ma.whole * i + ma.part,
                        d == ij * q,
                        ij == i * j,
                        jq == j * q,
                ;
                assert(b * i * q == mb.whole * d + mb.part * iq) by (nonlinear_arith)
                    requires
                        b == mb.whole * j + mb.part,
                        d == ij * q,
                        ij == i * j,
                        iq == i * q,
                ;
                assert(c * i * j == mc.whole * d + mc.part * ij) by (nonlinear_arith)
                    requires
                        c == mc.whole * q + mc.part,
                        d == ij * q,
                        ij == i * j,
                ;
                assert(den == d) by (nonlinear_arith)
                    requires
                        den == i * j * q,
                        d == ij * q,
                        ij == i * j,
                ;
                assert(num == whole * d + part) by (nonlinear_arith)
                    requires
                        num == a * j * q - b * i * q - c * i * j,
                        a * j * q == ma.whole * d + ma.part * jq,
                        b * i * q == mb.whole * d + mb.part * iq,
                        c * i * j == mc.whole * d + mc.part * ij,
                        whole == ma.whole - mb.whole - mc.whole,
                        part == ma.part * jq - mb.part * iq - mc.part * ij,
                ;
            }
            let m = if part >= 0 {
                Mixed { whole, part, denominator: d }
            } else if part + d >= 0 {
                Mixed { whole: whole - 1, part: part + d, denominator: d }
            } else {
                Mixed { whole: whole - 2, part: part + d + d, denominator: d }
            };
            proof {
                assert(num == m.whole * d + m.part) by (nonlinear_arith)
                    requires
                        num == whole * d + part,
                        (m.whole == whole && m.part == part) || (m.whole == whole - 1 && m.part
                            == part + d) || (m.whole == whole - 2 && m.part == part + d + d),
                ;
                lemma_fundamental_div_mod_converse_div(num, d as int, m.whole as int, m.part as int);
                lemma_fundamental_div_mod_converse_mod(num, d as int, m.whole as int, m.part as int);
            }
            Some(m)
        }
    }

    /// The number of blocks to fetch, were the cache to run dry now.
    pub fn fetch_amount(&self) -> (amount: Option<usize>)
        requires
            self.wf(),
        ensures
            amount == self@.fetch_amount(),
    {
        let dapf = self.calculate_dapf();
        if dapf > self.time as u128 {
            return None;
        }
        match self.demand(dapf as usize) {
            Some(m) => {
                proof {
                    let (num, den) = self@.demand(dapf as int)->0;
                    m.lemma_is(num, den, 0);
                }
                Some(m.ceil_to_usize())
            },
            None => None,
        }
    }

    /// The demand over the window `dapf`, where there is one and it is not
    /// negative.
    pub fn usable_demand(&self) -> (demand: Option<Mixed>)
        requires
            self.wf(),
        ensures
            match (demand, self@.usable_demand()) {
                (Some(m), Some((num, den))) => {
                    &&& m.is(num, den)
                    &&& 0 <= m.whole <= MAX_WHOLE
                    &&& m.denominator <= MAX_WHOLE
                },
                (None, None) => true,
                _ => false,
            },
    {
        let dapf = self.calculate_dapf();
        if dapf > self.time as u128 {
            return None;
        }
        match self.demand(dapf as usize) {
            Some(m) => {
                proof {
                    let (num, den) = self@.demand(dapf as int)->0;
                    m.lemma_is(num, den, 0);
                }
                if m.is_negative() {
                    None
                } else {
                    Some(m)
                }
            },
            None => None,
        }
    }

    /// The number of blocks to hand back from a cache of `free_blocks` for
    /// the demand `demand`: one more than the demand rounded up, where the
    /// cache holds at least twice the demand and one.
    pub fn surplus(demand: &Mixed, free_blocks: u32) -> (amount: Option<u32>)
        requires
            demand.proper(),
            0 <= demand.whole <= MAX_WHOLE,
            demand.denominator <= MAX_WHOLE,
        ensures
            amount == (if demand.twice_and_one_within(free_blocks as int) {
                Some((demand.ceiling() + 1) as u32)
            } else {
                None
            }),
            amount matches Some(a) ==> a == demand.ceiling() + 1,
    {
        if demand.twice_and_one_fit(free_blocks) {
            let ceiling: i128 = if demand.part > 0 {
                demand.whole + 1
            } else {
                demand.whole
            };
            Some((ceiling + 1) as u32)
        } else {
            None
        }
    }

    /// The number of blocks to hand back when the cache holds
    /// `free_blocks`.
    pub fn return_amount(&self, free_blocks: u32) -> (amount: Option<u32>)
        requires
            self.wf(),
        ensures
            amount == self@.return_amount(free_blocks),
    {
        match self.usable_demand() {
            Some(m) => {
                proof {
                    let (num, den) = self@.usable_demand()->0;
                    m.lemma_is(num, den, free_blocks as int);
                }
                Self::surplus(&m, free_blocks)
            },
            None => None,
        }
    }

    /// Counts an allocation of `slot`, and fetches blocks if the cache has
    /// run dry. Returns whether the allocation was served: it was not if
    /// the cache had run dry and there was no demand to go by.
    ///
    /// `check` is asked once how many free blocks the bin holds. If it
    /// answers zero and there is a demand, `get` is called once for the
    /// amount to fetch.
    pub fn malloc(&mut self, slot: usize) -> (served: bool)
        requires
            old(self).wf(),
            old(self).ready(),
        ensures
            final(self).wf(),
            final(self).callbacks() == old(self).callbacks(),
            exists|free_blocks: u32|
                {
                    &&& #[trigger] call_ensures(
                        old(self).callbacks().0,
                        (old(self)@.id,),
                        free_blocks,
                    )
                    &&& (final(self)@, served) == old(self)@.malloc_outcome(slot, free_blocks)
                    &&& free_blocks == 0 ==> (old(self)@.after_malloc(slot).fetch_amount() matches Some(
                        amount,
                    ) ==> exists|fetched: bool| #[trigger]
                        call_ensures(old(self).callbacks().1, (old(self)@.id, amount), fetched))
                },
    {
        self.time = self.time + 1;
        if !self.use_allocation_clock {
            self.l_counter.inc_timer();
            proof {
                self.lemma_liveness_has_room();
            }
            self.l_counter.on_alloc();
        }
        self.r_counter.on_alloc(slot);
        self.r_counter.inc_timer();
        proof {
            assert(self.target_apf * self.fetch_count <= 2 * self.time);
            assert(self@ == old(self)@.after_malloc(slot));
        }
        let ghost counted = self@;
        let free_blocks = (self.check)(self.id);
        proof {
            assert(call_ensures(old(self).callbacks().0, (old(self)@.id,), free_blocks));
        }
        if free_blocks == 0 {
            let amount = match self.fetch_amount() {
                Some(amount) => amount,
                None => {
                    proof {
                        assert((self@, false) == old(self)@.malloc_outcome(slot, free_blocks));
                    }
                    return false;
                },
            };
            let dapf = self.calculate_dapf();
            proof {
                let target = self.target_apf as int;
                let fetches = self.fetch_count as int;
                assert(target * (fetches + 1) == target * fetches + target) by (nonlinear_arith);
                assert(dapf <= self.time);
                assert(target * (fetches + 1) <= 2 * self.time);
            }
            let time = self.time;
            match &mut self.record {
                Some(record) => {
                    record.push((time, dapf as usize));
                },
                None => {},
            }
            let fetched = (self.get)(self.id, amount);
            self.count_fetch();
            proof {
                assert(call_ensures(old(self).callbacks().1, (old(self)@.id, amount), fetched));
                assert(self@.record == counted.after_fetch().record);
                assert(self@ == counted.after_fetch());
                assert((self@, true) == old(self)@.malloc_outcome(slot, free_blocks));
            }
        } else {
            proof {
                assert((self@, true) == old(self)@.malloc_outcome(slot, free_blocks));
            }
        }
        true
    }

    /// Counts a free of `slot`, and hands blocks back if the cache holds
    /// too many. Returns whether there was a usable demand to go by.
    ///
    /// Where there is a usable demand, `check` is asked once how many free
    /// blocks the bin holds, and if there is a surplus, `ret` is called once
    /// for the amount to hand back.
    pub fn free(&mut self, slot: usize) -> (served: bool)
        requires
            old(self).wf(),
            !old(self)@.allocation_clock ==> old(self).ready(),
        ensures
            final(self).wf(),
            final(self).callbacks() == old(self).callbacks(),
            final(self)@ == old(self)@.after_free(slot),
            served == (final(self)@.usable_demand() is Some),
            served ==> exists|free_blocks: u32|
                {
                    &&& #[trigger] call_ensures(
                        old(self).callbacks().0,
                        (old(self)@.id,),
                        free_blocks,
                    )
                    &&& final(self)@.return_amount(free_blocks) matches Some(amount)
                        ==> exists|returned: bool| #[trigger]
                        call_ensures(old(self).callbacks().2, (old(self)@.id, amount), returned)
                },
    {
        self.r_counter.free(slot);
        if !self.use_allocation_clock {
            self.r_counter.inc_timer();
            self.time = self.time + 1;
            self.l_counter.inc_timer();
            proof {
                self.lemma_liveness_has_room();
            }
            self.l_counter.free();
        }
        proof {
            assert(self.target_apf * self.fetch_count <= 2 * self.time);
            assert(self@ == old(self)@.after_free(slot));
        }
        let demand = match self.usable_demand() {
            Some(demand) => demand,
            None => {
                return false;
            },
        };
        proof {
            let (num, den) = self@.usable_demand()->0;
            assert forall|count: int|
                demand.twice_and_one_within(count) <==> count * den >= 2 * num + den by {
                demand.lemma_is(num, den, count);
            }
            demand.lemma_is(num, den, 0);
        }
        let free_blocks = (self.check)(self.id);
        proof {
            assert(call_ensures(old(self).callbacks().0, (old(self)@.id,), free_blocks));
        }
        match Self::surplus(&demand, free_blocks) {
            Some(amount) => {
                let returned = (self.ret)(self.id, amount);
                proof {
                    assert(self@.return_amount(free_blocks) == Some(amount));
                    assert(call_ensures(old(self).callbacks().2, (old(self)@.id, amount), returned));
                }
            },
            None => {
                proof {
                    assert(self@.return_amount(free_blocks) is None);
                }
            },
        }
        true
    }

    /// A liveness counter that has seen fewer events than its clock shows
    /// has room for one more allocation and one more free: no sum of times
    /// can outgrow the clock times the number of events.
    proof fn lemma_liveness_has_room(&self)
        requires
            self.l_counter.wf(),
            self.l_counter@.alloc_times.len() + self.l_counter@.free_times.len()
                < self.l_counter@.clock,
        ensures
            self.l_counter.takes_alloc(),
            self.l_counter.takes_free(),
    {
        let view = self.l_counter@;
        let clock = view.clock as int;
        self.l_counter.lemma_counts_at_clock();
        lemma_sum_upto_bound(view.alloc_times, clock, clock);
        lemma_sum_upto_bound(view.free_times, clock, clock);
        assert(view.alloc_times.len() * clock + clock <= 0xffff_ffff * 0xffff_ffff)
            by (nonlinear_arith)
            requires
                0 <= view.alloc_times.len() < clock,
                clock <= 0xffff_ffff,
        ;
        assert(view.free_times.len() * clock + clock <= 0xffff_ffff * 0xffff_ffff)
            by (nonlinear_arith)
            requires
                0 <= view.free_times.len() < clock,
                clock <= 0xffff_ffff,
        ;
    }

    /// Counts a fetch.
    fn count_fetch(&mut self)
        requires
            old(self).fetch_count < usize::MAX,
        ensures
            *final(self) == (ApfTuner { fetch_count: (old(self).fetch_count + 1) as usize, ..*old(self) }),
    {
        self.fetch_count = self.fetch_count + 1;
    }

    /// The record: the time and the window of every fetch, in their order;
    /// `None` where none is kept.
    pub fn record(&self) -> (record: Option<Vec<(usize, usize)>>)
        ensures
            match (record, self@.record) {
                (Some(copy), Some(kept)) => copy@ == kept,
                (None, None) => true,
                _ => false,
            },
    {
        match &self.record {
            Some(kept) => {
                let mut copy: Vec<(usize, usize)> = Vec::new();
                let mut i: usize = 0;
                while i < kept.len()
                    invariant
                        i <= kept@.len(),
                        copy@ == kept@.take(i as int),
                    decreases kept@.len() - i,
                {
                    copy.push(kept[i]);
                    i = i + 1;
                    assert(kept@.take(i as int) =~= kept@.take(i - 1).push(kept@[i - 1]));
                }
                assert(kept@.take(i as int) =~= kept@);
                Some(copy)
            },
            None => None,
        }
    }

    /// No more fetches are counted than events, and `target_apf` times the
    /// number of fetches is at most twice the time: there are no more than
    /// two fetches to a stretch of `target_apf` events.
    pub proof fn lemma_fetches_bounded(&self)
        requires
            self.wf(),
        ensures
            self@.fetch_count <= self@.time,
            self@.target_apf * self@.fetch_count <= 2 * self@.time,
    {
    }

    /// The window is never longer than `target_apf` and the time together,
    /// and it is no longer than `target_apf` once the time has reached
    /// `target_apf` times the number of fetches.
    pub proof fn lemma_dapf_bounded(&self)
        requires
            self.wf(),
        ensures
            0 <= self@.dapf() <= self@.target_apf + self@.time,
            self@.time >= self@.target_apf * self@.fetch_count ==> self@.dapf()
                <= self@.target_apf,
    {
        let target = self@.target_apf as int;
        let fetches = self@.fetch_count as int;
        assert(target * (fetches + 1) == target * fetches + target) by (nonlinear_arith);
    }
}

/// The lines that picture a record: for the fetch `i`, counted from zero,
/// at `time` with the window `dapf`, the line from `time` to `time + dapf`
/// in the row `i + 1`.
pub open spec fn record_lines_of(record: Seq<(usize, usize)>) -> Seq<(u128, u128, usize)> {
    Seq::new(
        record.len(),
        |i: int| (record[i].0 as u128, (record[i].0 + record[i].1) as u128, (i + 1) as usize),
    )
}

/// The lines that picture `record`.
pub fn record_lines(record: &Vec<(usize, usize)>) -> (lines: Vec<(u128, u128, usize)>)
    ensures
        lines@ == record_lines_of(record@),
{
    let mut lines: Vec<(u128, u128, usize)> = Vec::new();
    let mut i: usize = 0;
    while i < record.len()
        invariant
            i <= record@.len(),
            lines@ == record_lines_of(record@.take(i as int)),
        decreases record@.len() - i,
    {
        let (time, dapf) = record[i];
        lines.push((time as u128, time as u128 + dapf as u128, i + 1));
        i = i + 1;
        assert(lines@ =~= record_lines_of(record@.take(i as int)));
    }
    assert(record@.take(i as int) =~= record@);
    lines
}

} // verus!
