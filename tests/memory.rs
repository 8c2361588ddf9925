use wave_bench::memory::peak_memory_kb;

const STATUS: &str = "Name:\tbench\nUmask:\t0022\nState:\tR (running)\nVmPeak:\t  123456 kB\nVmSize:\t  120000 kB\nVmHWM:\t    5000 kB\n";

#[test]
fn reads_peak_from_status_report() {
    assert_eq!(peak_memory_kb(STATUS), 123456);
}

#[test]
fn missing_peak_reads_zero() {
    assert_eq!(peak_memory_kb("Name:\tbench\nVmSize:\t 10 kB\n"), 0);
    assert_eq!(peak_memory_kb(""), 0);
}

#[test]
fn unparsable_peak_reads_zero() {
    assert_eq!(peak_memory_kb("VmPeak:\t  lots kB\nVmPeak:\t 7 kB\n"), 0);
    assert_eq!(peak_memory_kb("VmPeak: 99999999999999999999999 kB\n"), 0);
    assert_eq!(peak_memory_kb("VmPeak: -5 kB\n"), 0);
}

#[test]
fn peak_line_without_value_is_skipped() {
    assert_eq!(peak_memory_kb("VmPeak:\nVmPeak:   64 kB\n"), 64);
}

#[test]
fn peak_value_accepts_plus_sign_and_last_line() {
    assert_eq!(peak_memory_kb("VmPeak: +512"), 512);
    assert_eq!(peak_memory_kb("VmPeak:\t18446744073709551615 kB"), u64::MAX);
}

#[test]
fn peak_key_must_start_the_line() {
    assert_eq!(peak_memory_kb(" VmPeak: 3 kB\nXVmPeak: 4 kB\n"), 0);
    assert_eq!(peak_memory_kb("VmPeakX 9 kB\n"), 0);
}

#[test]
fn peak_key_glued_to_value() {
    // The key and the value form one field; the second field is the unit.
    assert_eq!(peak_memory_kb("VmPeak:12 kB\n"), 0);
    assert_eq!(peak_memory_kb("VmPeak:12 34\n"), 34);
}
