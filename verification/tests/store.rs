//! Tests of the typed key-value store over the in-memory backend.

use zep_kvs::api::KeyValueStore;
use zep_kvs::scope;

#[test]
fn can_store_and_retrieve_string() {
    let mut store = KeyValueStore::<scope::Ephemeral>::new().unwrap();
    store.store("abc", "def").unwrap();
    assert_eq!(store.retrieve("abc").unwrap(), Some(String::from("def")));
}

#[test]
fn can_store_and_retrieve_bytes() {
    let mut store = KeyValueStore::<scope::Ephemeral>::new().unwrap();
    store.store("abc", [1u8, 2u8, 3u8].as_slice()).unwrap();
    assert_eq!(store.retrieve("abc").unwrap(), Some(vec![1u8, 2u8, 3u8]));
}

#[test]
fn can_retrieve_keys() {
    let mut machine = KeyValueStore::<scope::Ephemeral>::new().unwrap();
    machine.store("abc", "def").unwrap();
    machine.store("def", "hij").unwrap();
    machine.store("hij", "klm").unwrap();
    let keys = machine.keys().unwrap();
    assert!(keys.contains(&String::from("abc")));
    assert!(keys.contains(&String::from("def")));
    assert!(keys.contains(&String::from("hij")));
    assert_eq!(keys.len(), 3);
}

#[test]
fn can_remove_keys() {
    let mut store = KeyValueStore::<scope::Ephemeral>::new().unwrap();
    store.store("key1", "value1").unwrap();
    store.store("key2", "value2").unwrap();

    store.remove("key1").unwrap();
    assert_eq!(store.retrieve::<String>("key1").unwrap(), None);
    assert_eq!(
        store.retrieve("key2").unwrap(),
        Some(String::from("value2"))
    );
}

#[test]
fn can_overwrite_existing_keys() {
    let mut store = KeyValueStore::<scope::Ephemeral>::new().unwrap();
    store.store("key", "original").unwrap();
    store.store("key", "updated").unwrap();
    assert_eq!(
        store.retrieve("key").unwrap(),
        Some(String::from("updated"))
    );
}

#[test]
fn can_handle_empty_values() {
    let mut store = KeyValueStore::<scope::Ephemeral>::new().unwrap();
    store.store("empty_string", "").unwrap();
    store.store("empty_bytes", [].as_slice()).unwrap();

    assert_eq!(
        store.retrieve("empty_string").unwrap(),
        Some(String::from(""))
    );
    assert_eq!(
        store.retrieve("empty_bytes").unwrap(),
        Some(Vec::<u8>::new())
    );
}

#[test]
fn can_handle_empty_keys() {
    let mut store = KeyValueStore::<scope::Ephemeral>::new().unwrap();
    store.store("", "value").unwrap();
    assert_eq!(store.retrieve("").unwrap(), Some(String::from("value")));
}

#[test]
fn can_handle_special_characters_in_keys() {
    let mut store = KeyValueStore::<scope::Ephemeral>::new().unwrap();
    let special_keys = [
        "key with spaces",
        "key/with/slashes",
        "key-with-dashes",
        "key.with.dots",
        "🔑emoji",
    ];

    for key in &special_keys {
        let value = format!("value for {}", key);
        store.store(*key, value.as_str()).unwrap();
    }

    for key in &special_keys {
        assert!(store.retrieve::<String>(*key).unwrap().is_some());
    }
}

#[test]
fn can_handle_binary_data_with_nulls_and_special_bytes() {
    let mut store = KeyValueStore::<scope::Ephemeral>::new().unwrap();
    let binary_data = vec![0u8, 255u8, 127u8, 1u8, 0u8, 0u8, 42u8];

    store.store("binary", binary_data.as_slice()).unwrap();
    assert_eq!(store.retrieve("binary").unwrap(), Some(binary_data));
}

#[test]
fn can_handle_large_binary_data() {
    let mut store = KeyValueStore::<scope::Ephemeral>::new().unwrap();
    let large_data: Vec<u8> = (0..10000).map(|i| (i % 256) as u8).collect();

    store.store("large", large_data.as_slice()).unwrap();
    assert_eq!(store.retrieve("large").unwrap(), Some(large_data));
}

#[test]
fn empty_store_has_sensible_behavior() {
    let store = KeyValueStore::<scope::Ephemeral>::new().unwrap();

    assert_eq!(store.keys().unwrap().len(), 0);
    assert_eq!(store.retrieve::<String>("nonexistent").unwrap(), None);
}

#[test]
fn can_handle_many_keys() {
    let mut store = KeyValueStore::<scope::Ephemeral>::new().unwrap();
    let num_keys = 1000;

    for i in 0..num_keys {
        let key = format!("key_{}", i);
        let value = format!("value_{}", i);
        store.store(key.as_str(), value.as_str()).unwrap();
    }

    let keys = store.keys().unwrap();
    assert_eq!(keys.len(), num_keys);

    assert_eq!(
        store.retrieve("key_500").unwrap(),
        Some(String::from("value_500"))
    );
}

#[test]
fn can_handle_unicode_strings() {
    let mut store = KeyValueStore::<scope::Ephemeral>::new().unwrap();
    let unicode_strings = ["Hello, 世界!", "🚀🌟💫", "Ñoño", "Москва"];

    for (i, s) in unicode_strings.iter().enumerate() {
        store.store(format!("unicode_{}", i).as_str(), *s).unwrap();
    }

    for (i, expected) in unicode_strings.iter().enumerate() {
        let retrieved: String = store
            .retrieve(format!("unicode_{}", i).as_str())
            .unwrap()
            .unwrap();
        assert_eq!(retrieved, *expected);
    }
}

#[test]
fn can_store_and_retrieve_primitive_types() {
    let mut store = KeyValueStore::<scope::Ephemeral>::new().unwrap();

    // Boolean values
    store.store("bool_true", true).unwrap();
    store.store("bool_false", false).unwrap();
    assert_eq!(store.retrieve::<bool>("bool_true").unwrap(), Some(true));
    assert_eq!(store.retrieve::<bool>("bool_false").unwrap(), Some(false));

    // Character values
    store.store("char_ascii", 'A').unwrap();
    store.store("char_unicode", '🚀').unwrap();
    assert_eq!(store.retrieve::<char>("char_ascii").unwrap(), Some('A'));
    assert_eq!(store.retrieve::<char>("char_unicode").unwrap(), Some('🚀'));

    // Signed integers
    store.store("i8_val", 42i8).unwrap();
    store.store("i16_val", 1234i16).unwrap();
    store.store("i32_val", 123456i32).unwrap();
    store.store("i64_val", 1234567890i64).unwrap();
    store.store("i128_val", 123456789012345i128).unwrap();
    store.store("isize_val", 9999isize).unwrap();

    assert_eq!(store.retrieve::<i8>("i8_val").unwrap(), Some(42i8));
    assert_eq!(store.retrieve::<i16>("i16_val").unwrap(), Some(1234i16));
    assert_eq!(store.retrieve::<i32>("i32_val").unwrap(), Some(123456i32));
    assert_eq!(
        store.retrieve::<i64>("i64_val").unwrap(),
        Some(1234567890i64)
    );
    assert_eq!(
        store.retrieve::<i128>("i128_val").unwrap(),
        Some(123456789012345i128)
    );
    assert_eq!(
        store.retrieve::<isize>("isize_val").unwrap(),
        Some(9999isize)
    );

    // Unsigned integers
    store.store("u8_val", 255u8).unwrap();
    store.store("u16_val", 65535u16).unwrap();
    store.store("u32_val", 4294967295u32).unwrap();
    store.store("u64_val", 18446744073709551615u64).unwrap();
    store
        .store("u128_val", 340282366920938463463374607431768211455u128)
        .unwrap();
    store.store("usize_val", 12345usize).unwrap();

    assert_eq!(store.retrieve::<u8>("u8_val").unwrap(), Some(255u8));
    assert_eq!(store.retrieve::<u16>("u16_val").unwrap(), Some(65535u16));
    assert_eq!(
        store.retrieve::<u32>("u32_val").unwrap(),
        Some(4294967295u32)
    );
    assert_eq!(
        store.retrieve::<u64>("u64_val").unwrap(),
        Some(18446744073709551615u64)
    );
    assert_eq!(
        store.retrieve::<u128>("u128_val").unwrap(),
        Some(340282366920938463463374607431768211455u128)
    );
    assert_eq!(
        store.retrieve::<usize>("usize_val").unwrap(),
        Some(12345usize)
    );

    // Floating-point values cross the byte boundary as their big-endian
    // bit patterns: the library's codec carries no float type, so the
    // bytes are stored and fetched as raw byte sequences.
    store
        .store("f32_val", 3.14159f32.to_be_bytes().as_slice())
        .unwrap();
    store
        .store("f64_val", 2.718281828459045f64.to_be_bytes().as_slice())
        .unwrap();

    let f32_bytes: Vec<u8> = store.retrieve("f32_val").unwrap().unwrap();
    let f64_bytes: Vec<u8> = store.retrieve("f64_val").unwrap().unwrap();
    assert_eq!(
        f32::from_be_bytes(f32_bytes.try_into().unwrap()),
        3.14159f32
    );
    assert_eq!(
        f64::from_be_bytes(f64_bytes.try_into().unwrap()),
        2.718281828459045f64
    );
}

#[test]
fn count_scenario_full_lifecycle() {
    // Store the encoded u32 value 42 under "count"; list, retrieve,
    // remove, and observe the key gone.
    let mut store = KeyValueStore::<scope::Ephemeral>::new().unwrap();
    store.store("count", 42u32).unwrap();
    assert_eq!(store.keys().unwrap(), vec![String::from("count")]);
    assert_eq!(store.retrieve::<u32>("count").unwrap(), Some(42));
    store.remove("count").unwrap();
    assert_eq!(store.retrieve::<u32>("count").unwrap(), None);
    assert_eq!(store.keys().unwrap(), Vec::<String>::new());
}

#[test]
fn removing_a_missing_key_is_a_quiet_no_op_in_memory() {
    let mut store = KeyValueStore::<scope::Ephemeral>::new().unwrap();
    store.remove("never_stored").unwrap();
    store.store("kept", "v").unwrap();
    store.remove("never_stored").unwrap();
    assert_eq!(store.retrieve("kept").unwrap(), Some(String::from("v")));
}

#[test]
fn two_ephemeral_stores_are_independent() {
    // The same key in two store instances holds two independent values:
    // what one store holds is never visible through the other.
    let mut a = KeyValueStore::<scope::Ephemeral>::new().unwrap();
    let mut b = KeyValueStore::<scope::Ephemeral>::new().unwrap();

    a.store("scope_test", "first_value").unwrap();
    b.store("scope_test", "second_value").unwrap();

    assert_eq!(
        a.retrieve("scope_test").unwrap(),
        Some(String::from("first_value"))
    );
    assert_eq!(
        b.retrieve("scope_test").unwrap(),
        Some(String::from("second_value"))
    );

    a.store("a_only", "a_data").unwrap();
    b.store("b_only", "b_data").unwrap();

    let a_keys = a.keys().unwrap();
    let b_keys = b.keys().unwrap();
    assert!(a_keys.contains(&String::from("a_only")));
    assert!(!a_keys.contains(&String::from("b_only")));
    assert!(b_keys.contains(&String::from("b_only")));
    assert!(!b_keys.contains(&String::from("a_only")));

    assert_eq!(a.retrieve::<String>("b_only").unwrap(), None);
    assert_eq!(b.retrieve::<String>("a_only").unwrap(), None);

    a.remove("scope_test").unwrap();
    assert_eq!(a.retrieve::<String>("scope_test").unwrap(), None);
    assert_eq!(
        b.retrieve("scope_test").unwrap(),
        Some(String::from("second_value"))
    );
}

#[test]
fn retrieving_at_the_wrong_width_fails_without_corruption() {
    let mut store = KeyValueStore::<scope::Ephemeral>::new().unwrap();
    store.store("n", 42u32).unwrap();
    // Four bytes cannot decode as u64: the error is a decode error and the
    // stored value stays intact.
    assert!(store.retrieve::<u64>("n").is_err());
    assert_eq!(store.retrieve::<u32>("n").unwrap(), Some(42));
}
