use procmem::error::Error;
use procmem::maps::get_base;
use procmem::names::{
    check_process_name, check_process_name_strict, check_process_status_file,
    check_process_status_file_strict, get_process_name, parse_pid,
};

const STATUS: &str = "Name:\tmyapp-gui\nUmask:\t0022\nState:\tS (sleeping)\n";

#[test]
fn status_name_is_read_from_first_line() {
    assert_eq!(get_process_name(STATUS), Ok("myapp-gui".to_string()));
    assert_eq!(get_process_name("Name:\tfoo\r\nState:\tR\n"), Ok("foo".to_string()));
    assert_eq!(get_process_name("Name:\tbar"), Ok("bar".to_string()));
    assert_eq!(get_process_name("Name:\t\n"), Ok(String::new()));
}

#[test]
fn status_without_name_is_not_found() {
    assert_eq!(get_process_name("State:\tR\nName:\tx\n"), Err(Error::NotFound));
    assert_eq!(get_process_name("Name: x\n"), Err(Error::NotFound));
    assert_eq!(get_process_name("\n"), Err(Error::NotFound));
}

#[test]
fn empty_status_is_invalid() {
    assert_eq!(get_process_name(""), Err(Error::InvalidData));
}

#[test]
fn name_checks() {
    assert!(check_process_name("myapp-gui", "app"));
    assert!(check_process_name("app", "app"));
    assert!(check_process_name("app", ""));
    assert!(!check_process_name("other", "app"));
    assert!(!check_process_name("ap", "app"));
    assert!(check_process_name_strict("app", "app"));
    assert!(!check_process_name_strict("myapp-gui", "app"));
    assert!(!check_process_name_strict("app", "apps"));
}

#[test]
fn status_file_checks() {
    assert_eq!(check_process_status_file(STATUS, "app"), Ok(true));
    assert_eq!(check_process_status_file(STATUS, "zzz"), Ok(false));
    assert_eq!(check_process_status_file_strict(STATUS, "app"), Ok(false));
    assert_eq!(check_process_status_file_strict(STATUS, "myapp-gui"), Ok(true));
    assert_eq!(check_process_status_file("", "app"), Err(Error::InvalidData));
    assert_eq!(check_process_status_file_strict("x", "app"), Err(Error::NotFound));
}

#[test]
fn pid_entries() {
    assert_eq!(parse_pid("1234"), Some(1234));
    assert_eq!(parse_pid("0"), Some(0));
    assert_eq!(parse_pid("2147483647"), Some(i32::MAX));
    assert_eq!(parse_pid("2147483648"), None);
    assert_eq!(parse_pid("99999999999999999999999"), None);
    assert_eq!(parse_pid(""), None);
    assert_eq!(parse_pid("self"), None);
    assert_eq!(parse_pid("12a"), None);
    assert_eq!(parse_pid("+12"), None);
}

#[test]
fn base_is_start_of_first_mapping() {
    assert_eq!(
        get_base("55d4a000-55d4b000 r-xp 00000000 08:01 42 /bin/x\n7f00-8000 rw-p 0 0 0\n"),
        Ok(0x55d4a000)
    );
    assert_eq!(get_base("ABCdef-1"), Ok(0xabcdef));
    assert_eq!(get_base("ffffffffffffffff-0"), Ok(usize::MAX));
}

#[test]
fn base_without_mapping_is_not_found() {
    assert_eq!(get_base(""), Err(Error::NotFound));
    assert_eq!(get_base("\n1000-2000\n"), Err(Error::NotFound));
    assert_eq!(get_base("1000 2000"), Err(Error::NotFound));
}

#[test]
fn base_that_is_not_hex_is_invalid() {
    assert_eq!(get_base("-1000"), Err(Error::InvalidData));
    assert_eq!(get_base("10g0-2000"), Err(Error::InvalidData));
    assert_eq!(get_base("1ffffffffffffffff-0"), Err(Error::InvalidData));
}
