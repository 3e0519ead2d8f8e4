//! The round controller: which wave is running, what is left to spawn,
//! and the timer that gates the spawn rate.
//!
//! A wave's composition comes from an authored table of rounds, each a
//! list of (count, kind) pairs.  Past the end of the table the
//! controller synthesizes a default wave: as many adversaries of the
//! strongest kind as the round number.

use vstd::prelude::*;

use crate::enemy::EnemyKind;

verus! {

/// The number of the running round; zero before the first wave starts,
/// and advanced by one each time a wave fully clears.
pub struct RoundCounter(pub usize);

impl RoundCounter {
    /// The counter before any wave has started.
    pub fn new() -> (c: RoundCounter)
        ensures
            c.0 == 0,
    {
        RoundCounter(0)
    }

    /// Advance to the next round.
    pub fn next(&mut self)
        requires
            old(self).0 < 0x1000_0000,
        ensures
            final(self).0 == old(self).0 + 1,
    {
        self.0 = self.0 + 1;
    }
}

/// The authored wave table: round `i` spawns, for each `(count, kind)`
/// pair of entry `i`, `count` adversaries of `kind`.
pub struct RoundList(pub Vec<Vec<(u32, EnemyKind)>>);

/// The spawn queue of the running wave: the kinds still to spawn,
/// consumed from the back, one per spawn-timer period.
pub struct Round(pub Vec<EnemyKind>);

/// The periodic timer that gates the spawn rate: it fires once every
/// `period` ticks.
pub struct SpawnTimer {
    pub period: i64,
    pub elapsed: i64,
}

impl SpawnTimer {
    /// The timer is usable: a positive, bounded period, with the
    /// elapsed count inside it.
    pub open spec fn wf(self) -> bool {
        1 <= self.period <= 0x1_0000 && 0 <= self.elapsed < self.period
    }

    /// A fresh timer with the given period, in ticks.
    pub fn new(period: i64) -> (t: SpawnTimer)
        requires
            1 <= period <= 0x1_0000,
        ensures
            t.wf(),
            t.period == period,
            t.elapsed == 0,
    {
        SpawnTimer { period, elapsed: 0 }
    }

    /// Whether the timer fires on the tick after `self`.
    pub open spec fn fires_spec(self) -> bool {
        self.elapsed + 1 >= self.period
    }

    /// Advance the timer by one tick; it fires, and restarts, when a
    /// full period has elapsed.
    pub fn tick(&mut self) -> (fired: bool)
        requires
            old(self).wf(),
        ensures
            final(self).wf(),
            final(self).period == old(self).period,
            fired == old(self).fires_spec(),
            final(self).elapsed == if fired {
                0
            } else {
                old(self).elapsed + 1
            },
    {
        if self.elapsed + 1 >= self.period {
            self.elapsed = 0;
            true
        } else {
            self.elapsed = self.elapsed + 1;
            false
        }
    }
}

/// The flat spawn queue described by one wave-table entry: for each
/// `(count, kind)` pair in order, `count` copies of `kind`.
pub open spec fn flatten_round_spec(entries: Seq<(u32, EnemyKind)>) -> Seq<EnemyKind>
    decreases entries.len(),
{
    if entries.len() == 0 {
        Seq::empty()
    } else {
        let e = entries.last();
        flatten_round_spec(entries.drop_last()) + Seq::new(e.0 as nat, |i: int| e.1)
    }
}

/// The default spawn queue for round `counter` past the authored table:
/// `counter` adversaries of the strongest kind.
pub open spec fn default_round_spec(counter: nat) -> Seq<EnemyKind> {
    Seq::new(counter, |i: int| EnemyKind::Pepper)
}

/// The composition of round `counter`: the flattened table entry when
/// the table has one, otherwise the synthesized default queue.
pub fn compose_round(list: &RoundList, counter: usize) -> (r: Vec<EnemyKind>)
    requires
        1 <= counter <= 0x1000_0000,
    ensures
        counter - 1 < list.0@.len() ==> r@ == flatten_round_spec(list.0@[counter - 1]@),
        counter - 1 >= list.0@.len() ==> r@ == default_round_spec(counter as nat),
        counter - 1 >= list.0@.len() ==> r@.len() == counter,
{
    let mut r: Vec<EnemyKind> = Vec::new();
    if counter - 1 < list.0.len() {
        let entries: &Vec<(u32, EnemyKind)> = &list.0[counter - 1];
        let mut i: usize = 0;
        while i < entries.len()
            invariant
                0 <= i <= entries@.len(),
                entries == list.0@[counter - 1],
                r@ == flatten_round_spec(entries@.take(i as int)),
            decreases entries@.len() - i,
        {
            let pair: (u32, EnemyKind) = entries[i];
            let mut k: u32 = 0;
            while k < pair.0
                invariant
                    0 <= k <= pair.0,
                    pair == entries@[i as int],
                    0 <= i < entries@.len(),
                    r@ == flatten_round_spec(entries@.take(i as int)) + Seq::new(
                        k as nat,
                        |n: int| pair.1,
                    ),
                decreases pair.0 - k,
            {
                r.push(pair.1);
                proof {
                    assert(r@ =~= flatten_round_spec(entries@.take(i as int)) + Seq::new(
                        k as nat + 1,
                        |n: int| pair.1,
                    ));
                }
                k = k + 1;
            }
            proof {
                assert(entries@.take(i as int + 1).drop_last() =~= entries@.take(i as int));
                assert(entries@.take(i as int + 1).last() == entries@[i as int]);
                assert(r@ =~= flatten_round_spec(entries@.take(i as int + 1)));
            }
            i = i + 1;
        }
        proof {
            assert(entries@.take(entries@.len() as int) =~= entries@);
        }
    } else {
        let mut k: usize = 0;
        while k < counter
            invariant
                0 <= k <= counter,
                r@ == Seq::new(k as nat, |n: int| EnemyKind::Pepper),
            decreases counter - k,
        {
            r.push(EnemyKind::Pepper);
            proof {
                assert(r@ =~= Seq::new(k as nat + 1, |n: int| EnemyKind::Pepper));
            }
            k = k + 1;
        }
    }
    r
}

} // verus!
