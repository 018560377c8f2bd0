use photonix_core::utils::memory::rss_bytes_from_status;

#[test]
fn rss_is_read_from_the_vmrss_line() {
    let status = "Name:\tcamera\nVmPeak:\t  9000 kB\nVmRSS:\t   2048 kB\nVmRSS:\t 7 kB\n";
    assert_eq!(rss_bytes_from_status(status), Some(2048 * 1024));
    assert_eq!(rss_bytes_from_status("VmRSS:\t+12 kB\r\n"), Some(12 * 1024));
}

#[test]
fn missing_or_unreadable_rss_is_zero() {
    assert_eq!(rss_bytes_from_status(""), Some(0));
    assert_eq!(rss_bytes_from_status("Name:\tcamera\nVmHWM:\t 10 kB\n"), Some(0));
    assert_eq!(rss_bytes_from_status("VmRSS:\tabc kB\n"), Some(0));
    // Without a space after the colon the second field is the unit.
    assert_eq!(rss_bytes_from_status("VmRSS:1234 kB\n"), Some(0));
    assert_eq!(rss_bytes_from_status("VmRSS:\n"), Some(0));
    // A value too large for 64 bits does not parse.
    assert_eq!(rss_bytes_from_status("VmRSS: 99999999999999999999 kB\n"), Some(0));
    // "xVmRSS:" does not start with the key.
    assert_eq!(rss_bytes_from_status("xVmRSS: 5 kB\n"), Some(0));
}

#[test]
fn rss_that_overflows_in_bytes_is_refused() {
    assert_eq!(rss_bytes_from_status("VmRSS: 18446744073709551615 kB\n"), None);
}
