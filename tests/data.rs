use alpm_mtree::data::{Data, DataDeserializer, Deserializer, Error};

#[test]
fn value_is_returned() {
    let d = Data::Value("abc".to_string());
    assert_eq!(d.value_or_error().ok(), Some("abc"));
}

#[test]
fn list_has_no_single_value() {
    let d = Data::List(vec!["1".to_string()]);
    assert!(matches!(d.value_or_error(), Err(Error::InvalidState)));
}

#[test]
fn data_deserializer_holds_its_data() {
    let dd: DataDeserializer<Error> = DataDeserializer::new(Data::Value("7".to_string()));
    assert_eq!(dd.data.value_or_error().ok(), Some("7"));
}

#[test]
fn sample_input_is_sorted_by_key() {
    let de = Deserializer::from_str("ignored");
    let keys: Vec<&str> = de.input.iter().map(|(k, _)| k.as_str()).collect();
    assert_eq!(
        keys,
        vec!["i32", "i64", "key", "list", "number_list", "single_key_list", "u32", "u64"]
    );
    assert_eq!(de.input[2].1.value_or_error().ok(), Some("value"));
    assert!(matches!(&de.input[3].1, Data::List(l) if l == &vec!["1".to_string(), "2".to_string()]));
}
