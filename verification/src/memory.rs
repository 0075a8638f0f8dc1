//! Memory utilisation from one sample of absolute quantities.

use crate::error::Error;
use crate::percent::{compute_percent_used, percent_used};
use crate::text::{characters, next_word, number_of, read_number, words, words_from};
use vstd::prelude::*;

verus! {

/// What a [`Memory`] holds: the quantities of the current sample, each of
/// them possibly absent.
pub struct MemoryView {
    /// Memory installed.
    pub total: Option<u64>,
    /// Memory that new allocations could still have.
    pub available: Option<u64>,
}

/// Holds the current memory sample.
pub struct Memory {
    total: Option<u64>,
    available: Option<u64>,
}

impl View for Memory {
    type V = MemoryView;

    closed spec fn view(&self) -> MemoryView {
        MemoryView { total: self.total, available: self.available }
    }
}

/// The share of memory in use according to a sample.
///
/// With a quantity missing there is nothing to compute, and more available
/// than installed is invalid. Otherwise the share is
/// `100 × (1 − available / total)`, cut off toward zero. A sample with no
/// memory at all has nothing in use: its share is 0.
pub open spec fn usage_of(sample: MemoryView) -> Result<u8, Error> {
    if sample.total is None || sample.available is None {
        Err(Error::EmptyValueError)
    } else if sample.available->0 > sample.total->0 {
        Err(Error::InvalidValueError)
    } else if sample.total->0 == 0 {
        Ok(0u8)
    } else {
        Ok(percent_used(sample.total->0 as nat, sample.available->0 as nat) as u8)
    }
}

impl Memory {
    /// Creates a tracker that holds the given quantities.
    pub fn new(total: Option<u64>, available: Option<u64>) -> (memory: Self)
        ensures
            memory@ == (MemoryView { total, available }),
    {
        Self { total, available }
    }

    /// The total held, if any.
    pub fn total(&self) -> (total: Option<u64>)
        ensures
            total == self@.total,
    {
        self.total
    }

    /// The available quantity held, if any.
    pub fn available(&self) -> (available: Option<u64>)
        ensures
            available == self@.available,
    {
        self.available
    }

    /// Replaces the quantities held, whatever they were.
    pub fn update(&mut self, total: Option<u64>, available: Option<u64>)
        ensures
            final(self)@ == (MemoryView { total, available }),
    {
        self.total = total;
        self.available = available;
    }

    /// The share of memory in use, in percent.
    ///
    /// Fails with `EmptyValueError` exactly when a quantity is absent, and
    /// otherwise with `InvalidValueError` exactly when more is available
    /// than the total.
    pub fn calculate(&self) -> (result: Result<u8, Error>)
        ensures
            result == usage_of(self@),
            result == Err::<u8, Error>(Error::EmptyValueError) <==> self@.total is None
                || self@.available is None,
            result == Err::<u8, Error>(Error::InvalidValueError) <==> self@.total is Some
                && self@.available is Some && self@.available->0 > self@.total->0,
            result matches Ok(usage) ==> {
                let total = self@.total->0;
                let used = total - self@.available->0;
                &&& usage <= 100
                &&& total > 0 ==> usage * total <= 100 * used < (usage + 1) * total
                &&& total == 0 ==> usage == 0
            },
    {
        let total = match self.total {
            Some(total) => total,
            None => return Err(Error::EmptyValueError),
        };
        let available = match self.available {
            Some(available) => available,
            None => return Err(Error::EmptyValueError),
        };

        if available > total {
            return Err(Error::InvalidValueError);
        }
        if total == 0 {
            return Ok(0);
        }
        Ok(compute_percent_used(total, available))
    }

    /// Takes one cycle on the two lines of memory information that state
    /// the total and the available quantity: reads both, holds them from
    /// now on, and computes the share in use from them.
    ///
    /// Lines that cannot both be read leave the tracker as it was; the
    /// error is that of the first line that fails.
    pub fn observe(&mut self, total_line: &str, available_line: &str) -> (result: Result<u8, Error>)
        ensures
            match (quantity_of(total_line@), quantity_of(available_line@)) {
                (Ok(total), Ok(available)) => {
                    &&& final(self)@ == (MemoryView {
                        total: Some(total),
                        available: Some(available),
                    })
                    &&& result == usage_of(final(self)@)
                },
                (Err(error), _) | (Ok(_), Err(error)) => {
                    &&& result == Err::<u8, Error>(error)
                    &&& final(self)@ == old(self)@
                },
            },
    {
        let total = match parse_mem_stat_line(total_line) {
            Ok(total) => total,
            Err(error) => return Err(error),
        };
        let available = match parse_mem_stat_line(available_line) {
            Ok(available) => available,
            Err(error) => return Err(error),
        };
        self.update(Some(total), Some(available));
        self.calculate()
    }
}

/// The quantity that a line of memory information states: the number that
/// its second word writes. The first word is the label, with or without its
/// colon; what follows the second word, such as a unit, is not read.
pub open spec fn quantity_of(line: Seq<char>) -> Result<u64, Error> {
    let words = words(line);
    if words.len() < 2 {
        Err(Error::EmptyValueError)
    } else {
        match number_of(words[1]) {
            Some(quantity) => Ok(quantity),
            None => Err(Error::ParseValueError),
        }
    }
}

/// Reads the quantity from a line of memory information, such as
/// `MemTotal:       16215968 kB`.
///
/// Fails with `EmptyValueError` exactly when the line has fewer than two
/// words, and otherwise with `ParseValueError` exactly when the second
/// word is not a number.
pub fn parse_mem_stat_line(line: &str) -> (result: Result<u64, Error>)
    ensures
        result == quantity_of(line@),
        result == Err::<u64, Error>(Error::EmptyValueError) <==> words(line@).len() < 2,
        result == Err::<u64, Error>(Error::ParseValueError) <==> words(line@).len() >= 2
            && number_of(words(line@)[1]) is None,
        result matches Ok(quantity) ==> number_of(words(line@)[1]) == Some(quantity),
{
    let chars = characters(line);
    let after_label: usize = match next_word(&chars, 0) {
        Some((_, end)) => end,
        None => return Err(Error::EmptyValueError),
    };
    let (start, end) = match next_word(&chars, after_label) {
        Some(bounds) => bounds,
        None => return Err(Error::EmptyValueError),
    };
    assert(words(line@) == seq![words(line@)[0], line@.subrange(start as int, end as int)]
        + words_from(line@, end as int));
    match read_number(&chars, start, end) {
        Some(quantity) => Ok(quantity),
        None => Err(Error::ParseValueError),
    }
}

} // verus!
