use bittorrent::error::MyError;
use bittorrent::magnet::Magnet;

const LINK: &str = "magnet:?xt=urn:btih:ad42ce8109f54c99613ce38f9b4d87e70f24a165&dn=magnet1.gif&tr=http%3A%2F%2Fbittorrent-test-tracker.codecrafters.io%2Fannounce";

#[test]
fn link_is_split_and_decoded() {
    let m = Magnet::new(&LINK.to_string()).unwrap();
    assert_eq!(m.url, "http://bittorrent-test-tracker.codecrafters.io/announce".to_string());
    assert_eq!(m.info_hash, "ad42ce8109f54c99613ce38f9b4d87e70f24a165".to_string());
    assert_eq!(m.magnet_name, "magnet1.gif".to_string());
}

#[test]
fn info_hash_bytes() {
    let m = Magnet::new(&LINK.to_string()).unwrap();
    let b = m.info_hash_to_slice();
    assert_eq!(b[0], 0xad);
    assert_eq!(b[1], 0x42);
    assert_eq!(b[19], 0x65);
    let upper = Magnet { url: String::new(), info_hash: "AD42CE8109F54C99613CE38F9B4D87E70F24A165".to_string(), magnet_name: String::new() };
    assert_eq!(upper.info_hash_to_slice(), b);
}

#[test]
fn link_without_tracker_is_refused() {
    assert_eq!(Magnet::new(&"magnet:?xt=urn:btih:ab&dn=x".to_string()), Err(MyError::InvalidInput));
    assert_eq!(Magnet::new(&"magnet:?xt=urn:abc&dn=x&tr=y".to_string()), Err(MyError::InvalidInput));
}

#[test]
fn plus_is_kept_and_bad_escapes_pass_through() {
    let m = Magnet::new(&"magnet:?xt=urn:btih:00&dn=n&tr=a+b%zz%41".to_string()).unwrap();
    assert_eq!(m.url, "a+b%zzA".to_string());
}
