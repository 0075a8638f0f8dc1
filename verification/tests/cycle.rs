use resomoni::error::Error;
use resomoni::memory::Memory;
use resomoni::processor::{CpuSample, Processor, COUNTERS, IDLE};

#[test]
fn sample_is_the_sum_and_the_idle_counter() {
    assert_eq!(COUNTERS, 10);
    assert_eq!(IDLE, 3);
    let counters = [1681578, 19, 113823, 22203616, 1068, 22446, 11809, 0, 0, 0];
    assert_eq!(
        CpuSample::from_counters(&counters),
        Ok(CpuSample { total: 24034359, idle: 22203616 })
    );
    assert_eq!(CpuSample::from_counters(&[0; 10]), Ok(CpuSample { total: 0, idle: 0 }));
    assert_eq!(
        CpuSample::from_counters(&[1, 2, 3, 4, 5, 6, 7, 8, 9, 10]),
        Ok(CpuSample { total: 55, idle: 4 })
    );
}

#[test]
fn sample_with_a_sum_beyond_64_bits_is_invalid() {
    let mut counters = [0u64; 10];
    counters[0] = u64::MAX;
    assert_eq!(
        CpuSample::from_counters(&counters),
        Ok(CpuSample { total: u64::MAX, idle: 0 })
    );
    counters[9] = 1;
    assert_eq!(CpuSample::from_counters(&counters), Err(Error::InvalidValueError));
    counters[0] = u64::MAX - 1;
    assert_eq!(
        CpuSample::from_counters(&counters),
        Ok(CpuSample { total: u64::MAX, idle: 0 })
    );
    assert_eq!(CpuSample::from_counters(&[u64::MAX; 10]), Err(Error::InvalidValueError));
}

#[test]
fn processor_observe_measures_then_remembers() {
    let mut processor = Processor::new(None, None);
    // The first line has nothing to be measured against, and is remembered.
    assert_eq!(processor.observe("cpu 5 0 5 140 0 0 0 0 0 0"), Err(Error::EmptyValueError));
    assert_eq!(processor.total(), Some(150));
    assert_eq!(processor.idle(), Some(140));
    // Ten more ticks, two of them idle.
    assert_eq!(processor.observe("cpu 9 0 9 142 0 0 0 0 0 0"), Ok(80));
    assert_eq!(processor.total(), Some(160));
    assert_eq!(processor.idle(), Some(142));
}

#[test]
fn processor_observe_same_line_twice_is_invalid() {
    let mut processor = Processor::new(None, None);
    let line = "cpu  1681578 19 113823 22203616 1068 22446 11809 0 0 0";
    assert_eq!(processor.observe(line), Err(Error::EmptyValueError));
    assert_eq!(processor.observe(line), Err(Error::InvalidValueError));
    assert_eq!(processor.total(), Some(24034359));
    assert_eq!(processor.idle(), Some(22203616));
}

#[test]
fn processor_observe_remembers_after_a_failed_measurement() {
    let mut processor = Processor::new(Some(150), Some(140));
    // The counters ran backwards; the line is remembered all the same.
    assert_eq!(processor.observe("cpu 0 0 0 90 10"), Err(Error::InvalidValueError));
    assert_eq!(processor.total(), Some(100));
    assert_eq!(processor.idle(), Some(90));
    assert_eq!(processor.observe("cpu 8 0 0 92 10"), Ok(80));
}

#[test]
fn processor_observe_keeps_its_state_on_an_unreadable_line() {
    let mut processor = Processor::new(Some(150), Some(140));
    assert_eq!(processor.observe("cpu 5 x 5"), Err(Error::ParseValueError));
    assert_eq!(processor.total(), Some(150));
    assert_eq!(processor.idle(), Some(140));
    assert_eq!(
        processor.observe("cpu 18446744073709551615 1"),
        Err(Error::InvalidValueError)
    );
    assert_eq!(processor.total(), Some(150));
    assert_eq!(processor.idle(), Some(140));
    assert_eq!(processor.observe("cpu 9 0 9 142"), Ok(80));
}

#[test]
fn memory_observe_holds_then_computes() {
    let mut memory = Memory::new(None, None);
    assert_eq!(
        memory.observe("MemTotal:       16215968 kB", "MemAvailable:   10108740 kB"),
        Ok(37)
    );
    assert_eq!(memory.total(), Some(16215968));
    assert_eq!(memory.available(), Some(10108740));
    assert_eq!(memory.observe("MemTotal: 200 kB", "MemAvailable: 100 kB"), Ok(50));
}

#[test]
fn memory_observe_holds_an_invalid_sample() {
    let mut memory = Memory::new(Some(200), Some(100));
    assert_eq!(
        memory.observe("MemTotal: 150 kB", "MemAvailable: 160 kB"),
        Err(Error::InvalidValueError)
    );
    assert_eq!(memory.total(), Some(150));
    assert_eq!(memory.available(), Some(160));
}

#[test]
fn memory_observe_keeps_its_state_on_unreadable_lines() {
    let mut memory = Memory::new(Some(200), Some(100));
    assert_eq!(memory.observe("MemTotal: _ kB", "MemAvailable:"), Err(Error::ParseValueError));
    assert_eq!(memory.observe("MemTotal:", "MemAvailable: _ kB"), Err(Error::EmptyValueError));
    assert_eq!(memory.observe("MemTotal: 7 kB", "MemAvailable: _"), Err(Error::ParseValueError));
    assert_eq!(memory.observe("MemTotal: 7 kB", ""), Err(Error::EmptyValueError));
    assert_eq!(memory.total(), Some(200));
    assert_eq!(memory.available(), Some(100));
    assert_eq!(memory.calculate(), Ok(50));
}
