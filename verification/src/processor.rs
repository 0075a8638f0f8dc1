//! Processor utilisation between two samples of cumulative counters.
//!
//! The processor summary line states ten counters of time spent since
//! boot. Their sum and the idle counter make a sample; the busy share of
//! the time between two samples is what the tracker computes.

use crate::error::Error;
use crate::percent::{compute_percent_used, percent_used};
use crate::text::{characters, next_word, number_of, read_number, words, words_from};
use vstd::prelude::*;

verus! {

/// The number of counters on the processor summary line.
pub const COUNTERS: usize = 10;

/// The place of the idle counter among them.
pub const IDLE: usize = 3;

/// What a [`Processor`] remembers: the cumulative counters of the sample
/// taken last, each of them possibly absent.
pub struct ProcessorView {
    /// Time spent in all categories together.
    pub total: Option<u64>,
    /// Time spent idle.
    pub idle: Option<u64>,
}

/// Tracks the cumulative processor counters from one sample to the next.
pub struct Processor {
    total: Option<u64>,
    idle: Option<u64>,
}

impl View for Processor {
    type V = ProcessorView;

    closed spec fn view(&self) -> ProcessorView {
        ProcessorView { total: self.total, idle: self.idle }
    }
}

/// One sample of the cumulative counters.
#[derive(Debug, Clone, Copy, PartialEq, Eq, Structural)]
pub struct CpuSample {
    /// Time spent in all categories together.
    pub total: u64,
    /// Time spent idle.
    pub idle: u64,
}

/// The sum of some counters.
pub open spec fn sum_of(counters: Seq<u64>) -> nat
    decreases counters.len(),
{
    if counters.len() == 0 {
        0
    } else {
        sum_of(counters.drop_last()) + counters.last() as nat
    }
}

/// The sample that the ten counters of a line make: their sum and the
/// idle counter. Counters whose sum does not fit in 64 bits make no
/// sample.
pub open spec fn sample_of(counters: Seq<u64>) -> Result<CpuSample, Error>
    recommends
        counters.len() == COUNTERS,
{
    if sum_of(counters) <= u64::MAX {
        Ok(CpuSample { total: sum_of(counters) as u64, idle: counters[IDLE as int] })
    } else {
        Err(Error::InvalidValueError)
    }
}

/// A sum is at least as large as the sum of any beginning of it.
pub proof fn lemma_sum_grows(counters: Seq<u64>, n: int)
    requires
        0 <= n <= counters.len(),
    ensures
        sum_of(counters.take(n)) <= sum_of(counters),
    decreases counters.len(),
{
    if n < counters.len() {
        assert(counters.drop_last().take(n) == counters.take(n));
        lemma_sum_grows(counters.drop_last(), n);
    } else {
        assert(counters.take(n) == counters);
    }
}

impl CpuSample {
    /// Makes the sample from the ten counters of a line.
    pub fn from_counters(counters: &[u64; COUNTERS]) -> (result: Result<CpuSample, Error>)
        ensures
            result == sample_of(counters@),
    {
        let mut total: u64 = 0;
        let mut at: usize = 0;
        while at < COUNTERS
            invariant
                at <= COUNTERS,
                total == sum_of(counters@.take(at as int)),
            decreases COUNTERS - at,
        {
            proof {
                let seen = counters@.take(at + 1);
                assert(seen.drop_last() == counters@.take(at as int));
                lemma_sum_grows(counters@, at + 1);
            }
            total = match total.checked_add(counters[at]) {
                Some(sum) => sum,
                None => return Err(Error::InvalidValueError),
            };
            at += 1;
        }
        assert(counters@.take(at as int) == counters@);
        Ok(CpuSample { total, idle: counters[IDLE] })
    }
}

/// Whether the step from the remembered sample to the new one allows a
/// percentage: all four counters are present, neither counter ran
/// backwards, some time has passed, and no more of it was idle than has
/// passed.
pub open spec fn usable_step(previous: ProcessorView, total: Option<u64>, idle: Option<u64>) -> bool {
    &&& previous.total matches Some(last_total)
    &&& previous.idle matches Some(last_idle)
    &&& total matches Some(total)
    &&& idle matches Some(idle)
    &&& last_total < total
    &&& last_idle <= idle
    &&& idle - last_idle <= total - last_total
}

/// The outcome of comparing a new sample with the remembered one.
///
/// With a counter missing on either side there is nothing to compare. With
/// all four present, the busy share of the time that passed is
/// `100 × (1 − Δidle / Δtotal)`, cut off toward zero; a step on which this
/// is undefined or outside 0 to 100 is invalid.
pub open spec fn usage_since(previous: ProcessorView, total: Option<u64>, idle: Option<u64>) -> Result<
    u8,
    Error,
> {
    if previous.total is None || previous.idle is None || total is None || idle is None {
        Err(Error::EmptyValueError)
    } else if !usable_step(previous, total, idle) {
        Err(Error::InvalidValueError)
    } else {
        Ok(
            percent_used(
                (total->0 - previous.total->0) as nat,
                (idle->0 - previous.idle->0) as nat,
            ) as u8,
        )
    }
}

impl Processor {
    /// Creates a tracker that remembers the given counters.
    pub fn new(total: Option<u64>, idle: Option<u64>) -> (processor: Self)
        ensures
            processor@ == (ProcessorView { total, idle }),
    {
        Self { total, idle }
    }

    /// The remembered total, if any.
    pub fn total(&self) -> (total: Option<u64>)
        ensures
            total == self@.total,
    {
        self.total
    }

    /// The remembered idle time, if any.
    pub fn idle(&self) -> (idle: Option<u64>)
        ensures
            idle == self@.idle,
    {
        self.idle
    }

    /// Replaces the remembered counters, whatever they were.
    pub fn update(&mut self, total: Option<u64>, idle: Option<u64>)
        ensures
            final(self)@ == (ProcessorView { total, idle }),
    {
        self.total = total;
        self.idle = idle;
    }

    /// The busy share of the time between the remembered sample and the
    /// given one, in percent.
    ///
    /// Fails with `EmptyValueError` exactly when one of the four counters
    /// is absent, and otherwise with `InvalidValueError` exactly when the
    /// step is not usable: a counter ran backwards, no time has passed, or
    /// more time was idle than has passed. A percentage `p` is the integer
    /// part of the exact share: `p × Δtotal <= 100 × (Δtotal − Δidle) <
    /// (p + 1) × Δtotal`. The last clauses state these bounds with each
    /// product written out counter by counter, so that they stay linear for
    /// a caller who knows the counters.
    pub fn calculate(&self, total: Option<u64>, idle: Option<u64>) -> (result: Result<u8, Error>)
        ensures
            result == usage_since(self@, total, idle),
            result == Err::<u8, Error>(Error::EmptyValueError) <==> self@.total is None
                || self@.idle is None || total is None || idle is None,
            self@.total is Some && self@.idle is Some && total is Some && idle is Some && (total->0
                < self@.total->0 || idle->0 < self@.idle->0) ==> result == Err::<u8, Error>(
                Error::InvalidValueError,
            ),
            result is Ok <==> usable_step(self@, total, idle),
            result matches Ok(usage) ==> {
                let busy = (total->0 - self@.total->0) - (idle->0 - self@.idle->0);
                &&& usage <= 100
                &&& usage * total->0 - usage * self@.total->0 <= 100 * busy
                &&& 100 * busy < (usage + 1) * total->0 - (usage + 1) * self@.total->0
            },
    {
        let last_total = match self.total {
            Some(total) => total,
            None => return Err(Error::EmptyValueError),
        };
        let last_idle = match self.idle {
            Some(idle) => idle,
            None => return Err(Error::EmptyValueError),
        };
        let current_total = match total {
            Some(total) => total,
            None => return Err(Error::EmptyValueError),
        };
        let current_idle = match idle {
            Some(idle) => idle,
            None => return Err(Error::EmptyValueError),
        };

        if current_total < last_total || current_idle < last_idle {
            return Err(Error::InvalidValueError);
        }
        let total_difference: u64 = current_total - last_total;
        let idle_difference: u64 = current_idle - last_idle;

        if total_difference == 0 || idle_difference > total_difference {
            return Err(Error::InvalidValueError);
        }
        let usage: u8 = compute_percent_used(total_difference, idle_difference);
        proof {
            let p: int = usage as int;
            let a: int = current_total as int;
            let b: int = last_total as int;
            assert(p * (a - b) == p * a - p * b && (p + 1) * (a - b) == (p + 1) * a - (p + 1) * b)
                by (nonlinear_arith);
        }
        Ok(usage)
    }
}

/// The words of a processor line that are read as counters: those after
/// the label, and of these the first ten. Further words are not read.
pub open spec fn counter_words(line: Seq<char>) -> Seq<Seq<char>> {
    let words = words(line);
    if words.len() <= 1 {
        Seq::empty()
    } else if words.len() <= COUNTERS + 1 {
        words.skip(1)
    } else {
        words.subrange(1, COUNTERS + 1)
    }
}

/// The ten counters that a processor line states.
///
/// Each counter word must write a number. A line with fewer than ten
/// counter words is taken as it is: the counters that it does not state
/// are zero.
pub open spec fn counters_of(line: Seq<char>) -> Result<Seq<u64>, Error> {
    let fields = counter_words(line);
    if forall|i: int| 0 <= i < fields.len() ==> number_of(#[trigger] fields[i]) is Some {
        Ok(
            Seq::new(
                COUNTERS as nat,
                |i: int|
                    if i < fields.len() {
                        number_of(fields[i])->0
                    } else {
                        0u64
                    },
            ),
        )
    } else {
        Err(Error::ParseValueError)
    }
}

/// Reads the counters from the processor summary line, such as
/// `cpu  1681578 19 113823 22203616 1068 22446 11809 0 0 0`: user, nice,
/// system, idle, iowait, irq, softirq, steal, guest and guest_nice time,
/// in this order.
///
/// The first word is the label and is not read. Fails with
/// `ParseValueError` exactly when one of the counter words is not a
/// number. A line that states fewer than ten counters is not an error:
/// those that it leaves out are zero.
pub fn parse_proc_stat_line(line: &str) -> (result: Result<[u64; COUNTERS], Error>)
    ensures
        match result {
            Ok(numbers) => counters_of(line@) == Ok::<Seq<u64>, Error>(numbers@),
            Err(error) => counters_of(line@) == Err::<Seq<u64>, Error>(error),
        },
        result is Err <==> exists|i: int|
            0 <= i < counter_words(line@).len() && number_of(
                #[trigger] counter_words(line@)[i],
            ) is None,
        result matches Err(error) ==> error == Error::ParseValueError,
{
    let chars = characters(line);
    let mut numbers: [u64; COUNTERS] = [0; COUNTERS];
    let mut from: usize = match next_word(&chars, 0) {
        Some((_, end)) => end,
        None => {
            assert(counters_of(line@)->Ok_0 == numbers@);
            return Ok(numbers);
        },
    };
    let ghost all = words(line@);
    let mut count: usize = 0;
    while count < COUNTERS
        invariant
            count <= COUNTERS,
            from <= chars.len(),
            chars@ == line@,
            all == words(line@),
            all.len() > count,
            all.skip(count + 1) == words_from(line@, from as int),
            forall|i: int| 0 <= i < count ==> number_of(#[trigger] all[i + 1]) == Some(numbers[i]),
            forall|i: int| count <= i < COUNTERS ==> numbers[i] == 0,
        decreases COUNTERS - count,
    {
        let (start, end) = match next_word(&chars, from) {
            Some(bounds) => bounds,
            None => {
                assert(all.len() == count + 1);
                assert(counters_of(line@)->Ok_0 == numbers@);
                return Ok(numbers);
            },
        };
        assert(all.skip(count + 1)[0] == line@.subrange(start as int, end as int));
        assert(all.skip(count + 2) == all.skip(count + 1).skip(1));
        match read_number(&chars, start, end) {
            Some(number) => {
                numbers[count] = number;
            },
            None => {
                assert(number_of(counter_words(line@)[count as int]) is None);
                return Err(Error::ParseValueError);
            },
        }
        from = end;
        count += 1;
    }
    assert(counters_of(line@)->Ok_0 == numbers@);
    Ok(numbers)
}

/// The sample that a processor line states: the sample that its ten
/// counters make, where the line can be read.
pub open spec fn sample_on(line: Seq<char>) -> Result<CpuSample, Error> {
    match counters_of(line) {
        Ok(counters) => sample_of(counters),
        Err(error) => Err(error),
    }
}

impl Processor {
    /// Takes one cycle on the processor summary line: reads the sample
    /// that the line states, measures it against the remembered one, and
    /// remembers it in turn.
    ///
    /// The new sample is remembered whether or not the measurement gave a
    /// percentage, so that the next cycle is measured against this one. A
    /// line that states no sample leaves the tracker as it was.
    pub fn observe(&mut self, line: &str) -> (result: Result<u8, Error>)
        ensures
            match sample_on(line@) {
                Ok(sample) => {
                    &&& result == usage_since(old(self)@, Some(sample.total), Some(sample.idle))
                    &&& final(self)@ == (ProcessorView {
                        total: Some(sample.total),
                        idle: Some(sample.idle),
                    })
                },
                Err(error) => {
                    &&& result == Err::<u8, Error>(error)
                    &&& final(self)@ == old(self)@
                },
            },
    {
        let counters = match parse_proc_stat_line(line) {
            Ok(counters) => counters,
            Err(error) => return Err(error),
        };
        let sample = match CpuSample::from_counters(&counters) {
            Ok(sample) => sample,
            Err(error) => return Err(error),
        };
        let result = self.calculate(Some(sample.total), Some(sample.idle));
        self.update(Some(sample.total), Some(sample.idle));
        result
    }
}

/// A sample measured against itself gives no percentage: no time has
/// passed between the two, so there is no share of it to state. This is
/// what `calculate` returns when it is given the very counters that
/// `update` has just stored.
pub proof fn lemma_unchanged_sample_is_invalid(total: u64, idle: u64)
    ensures
        usage_since(
            ProcessorView { total: Some(total), idle: Some(idle) },
            Some(total),
            Some(idle),
        ) == Err::<u8, Error>(Error::InvalidValueError),
{
}

} // verus!
