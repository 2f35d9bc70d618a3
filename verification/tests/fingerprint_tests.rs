use spider::fingerprint::{bytes_to_hex, usize_to_digits, Input};

fn request(
    address: &str,
    max_depth: Option<usize>,
    max_pages: Option<usize>,
    robots_txt: Option<bool>,
    archive_pages: Option<bool>,
) -> Input {
    Input {
        address: address.to_owned(),
        max_depth,
        max_pages,
        robots_txt,
        archive_pages,
    }
}

#[test]
fn digits_render_decimal() {
    assert_eq!(usize_to_digits(0), "0".to_owned());
    assert_eq!(usize_to_digits(7), "7".to_owned());
    assert_eq!(usize_to_digits(12345), "12345".to_owned());
}

#[test]
fn hex_renders_two_lowercase_digits_per_byte() {
    assert_eq!(bytes_to_hex(&vec![]), "".to_owned());
    assert_eq!(bytes_to_hex(&vec![0xbe, 0xef, 0x00]), "beef00".to_owned());
}

#[test]
fn generate_hash_has_expected_value_without_bounds() {
    let input = request("https://example.com", None, None, None, None);
    assert_eq!(
        input.generate_hash(),
        "c2df01a17c5ab5f2fc40a477606cccaf".to_owned()
    );
}

#[test]
fn generate_hash_has_expected_value_with_bounds() {
    let input = request("https://example.com", Some(2), Some(100), None, None);
    assert_eq!(
        input.generate_hash(),
        "22b9d17e9666325fff0157e309276b72".to_owned()
    );
}

#[test]
fn generate_hash_ignores_the_flags() {
    let a = request("https://example.com", Some(1), None, Some(true), Some(true));
    let b = request("https://example.com", Some(1), None, None, Some(false));
    assert_eq!(a.generate_hash(), b.generate_hash());
}

#[test]
fn generate_hash_is_stable_across_calls() {
    let a = request("https://example.com", Some(1), Some(2), None, None);
    assert_eq!(a.generate_hash(), a.generate_hash());
}

#[test]
fn generate_hash_distinguishes_absent_from_zero() {
    let absent = request("https://example.com", None, None, None, None);
    let zero = request("https://example.com", Some(0), None, None, None);
    assert_ne!(absent.generate_hash(), zero.generate_hash());
}

#[test]
fn generate_hash_is_32_hex_characters() {
    let input = request("https://w.t", Some(3), Some(9), Some(false), None);
    let id = input.generate_hash();
    assert_eq!(id.len(), 32);
    assert!(id.chars().all(|c| c.is_ascii_hexdigit() && !c.is_ascii_uppercase()));
}
