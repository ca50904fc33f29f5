use bibifi::cli::{check_admin_password, read_port};
use bibifi::framing::{frame_complete, frame_end};

#[test]
fn ports() {
    assert_eq!(read_port("1024"), Some(1024));
    assert_eq!(read_port("8080"), Some(8080));
    assert_eq!(read_port("65535"), Some(65535));
    assert_eq!(read_port("+8080"), Some(8080));
    assert_eq!(read_port("+008080"), Some(8080));
    assert_eq!(read_port("1023"), None);
    assert_eq!(read_port("65536"), None);
    assert_eq!(read_port("99999999999999999999999"), None);
    assert_eq!(read_port("08080"), None);
    assert_eq!(read_port("0"), None);
    assert_eq!(read_port(""), None);
    assert_eq!(read_port("+"), None);
    assert_eq!(read_port("-8080"), None);
    assert_eq!(read_port("80 80"), None);
    assert_eq!(read_port("8080x"), None);
    assert_eq!(read_port("x8080"), None);
    assert_eq!(read_port("8\u{661}80"), None);
    assert_eq!(read_port("+\u{e9}"), None);
}

#[test]
fn admin_passwords() {
    assert!(check_admin_password(""));
    assert!(check_admin_password("admin"));
    assert!(check_admin_password("AZaz09_ ,;\\.?!-"));
    assert!(check_admin_password(&"p".repeat(4096)));
    assert!(!check_admin_password(&"p".repeat(4097)));
    assert!(!check_admin_password("pass\"word"));
    assert!(!check_admin_password("pass/word"));
    assert!(!check_admin_password("pass\nword"));
    assert!(!check_admin_password("p\u{e9}"));
}

#[test]
fn frames() {
    assert!(!frame_complete(&b"".to_vec()));
    assert!(!frame_complete(&b"**".to_vec()));
    assert!(frame_complete(&b"***".to_vec()));
    assert!(frame_complete(&b"exit\n***".to_vec()));
    assert!(!frame_complete(&b"exit\n*** ".to_vec()));
    assert!(!frame_complete(&b"exit\n**x*".to_vec()));
    assert_eq!(frame_end(&b"".to_vec()), None);
    assert_eq!(frame_end(&b"a*b**c".to_vec()), None);
    assert_eq!(frame_end(&b"***".to_vec()), Some(3));
    assert_eq!(frame_end(&b"a*b**c***d***".to_vec()), Some(9));
    assert_eq!(frame_end(&b"ab****".to_vec()), Some(5));
}
