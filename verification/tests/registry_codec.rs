use iso_render::codec::{deserialize, serialize};
use iso_render::registry::{Registry, RegistryError};

fn sample_registry() -> Registry {
    let mut reg = Registry::begin_render();
    reg.put("2.0".to_string(), "1.2.3.4".to_string()).unwrap();
    reg.put("k".to_string(), "".to_string()).unwrap();
    reg.put("".to_string(), "héllo wörld ✓".to_string()).unwrap();
    reg
}

#[test]
fn put_then_get_returns_the_value() {
    let reg = sample_registry();
    assert_eq!(reg.get("2.0"), Some("1.2.3.4".to_string()));
    assert_eq!(reg.get("k"), Some("".to_string()));
    assert_eq!(reg.get(""), Some("héllo wörld ✓".to_string()));
    assert_eq!(reg.get("missing"), None);
    assert_eq!(reg.len(), 3);
}

#[test]
fn duplicate_key_is_refused_and_state_kept() {
    let mut reg = Registry::begin_render();
    reg.put("a".to_string(), "1".to_string()).unwrap();
    let err = reg.put("a".to_string(), "2".to_string());
    assert_eq!(err, Err(RegistryError::DuplicateKey));
    assert_eq!(reg.get("a"), Some("1".to_string()));
    assert_eq!(reg.len(), 1);
}

#[test]
fn serialize_then_deserialize_round_trips() {
    let reg = sample_registry();
    let bytes = serialize(&reg);
    let back = deserialize(&bytes).unwrap();
    assert_eq!(back.len(), 3);
    assert_eq!(back.get("2.0"), Some("1.2.3.4".to_string()));
    assert_eq!(back.get("k"), Some("".to_string()));
    assert_eq!(back.get(""), Some("héllo wörld ✓".to_string()));
}

#[test]
fn empty_registry_round_trips() {
    let reg = Registry::begin_render();
    let bytes = serialize(&reg);
    assert_eq!(bytes, vec![1u8]);
    let back = deserialize(&bytes).unwrap();
    assert_eq!(back.len(), 0);
}

#[test]
fn empty_payload_is_malformed() {
    let bytes: Vec<u8> = Vec::new();
    assert_eq!(deserialize(&bytes).unwrap_err(), RegistryError::MalformedRegistry);
}

#[test]
fn wrong_version_is_malformed() {
    let reg = sample_registry();
    let mut bytes = serialize(&reg);
    bytes[0] = 2;
    assert_eq!(deserialize(&bytes).unwrap_err(), RegistryError::MalformedRegistry);
}

#[test]
fn truncated_payload_is_malformed() {
    let reg = sample_registry();
    let bytes = serialize(&reg);
    // an entry takes 16 length bytes plus four bytes per character; a cut at
    // an entry boundary is a valid shorter registry, any other cut is not
    let e1 = 1 + 16 + 4 * (3 + 7);
    let e2 = e1 + 16 + 4 * (1 + 0);
    for cut in 2..bytes.len() {
        let shorter = bytes[..cut].to_vec();
        if cut == e1 || cut == e2 {
            assert!(deserialize(&shorter).is_ok(), "cut at {cut} is a whole prefix");
        } else {
            assert_eq!(
                deserialize(&shorter).unwrap_err(),
                RegistryError::MalformedRegistry,
                "cut at {cut} should be malformed"
            );
        }
    }
}

#[test]
fn trailing_garbage_is_malformed() {
    let reg = sample_registry();
    let mut bytes = serialize(&reg);
    bytes.push(0);
    assert_eq!(deserialize(&bytes).unwrap_err(), RegistryError::MalformedRegistry);
}

#[test]
fn surrogate_code_point_is_malformed() {
    // one entry whose key holds the code point 0xD800, which no character has
    let mut bytes = vec![1u8];
    bytes.extend_from_slice(&1u64.to_le_bytes());
    bytes.extend_from_slice(&0xD800u32.to_le_bytes());
    bytes.extend_from_slice(&0u64.to_le_bytes());
    assert_eq!(deserialize(&bytes).unwrap_err(), RegistryError::MalformedRegistry);
}

#[test]
fn duplicate_keys_in_payload_are_malformed() {
    // two entries under the same one-character key
    let mut bytes = vec![1u8];
    for value in [b'x', b'y'] {
        bytes.extend_from_slice(&1u64.to_le_bytes());
        bytes.extend_from_slice(&(b'a' as u32).to_le_bytes());
        bytes.extend_from_slice(&1u64.to_le_bytes());
        bytes.extend_from_slice(&(value as u32).to_le_bytes());
    }
    assert_eq!(deserialize(&bytes).unwrap_err(), RegistryError::MalformedRegistry);
}

#[test]
fn payload_layout_is_the_documented_envelope() {
    let mut reg = Registry::begin_render();
    reg.put("ab".to_string(), "c".to_string()).unwrap();
    let bytes = serialize(&reg);
    let mut expected = vec![1u8];
    expected.extend_from_slice(&2u64.to_le_bytes());
    expected.extend_from_slice(&(b'a' as u32).to_le_bytes());
    expected.extend_from_slice(&(b'b' as u32).to_le_bytes());
    expected.extend_from_slice(&1u64.to_le_bytes());
    expected.extend_from_slice(&(b'c' as u32).to_le_bytes());
    assert_eq!(bytes, expected);
}
