//! Variants, keyed lists and texts.

use iceberg_connector::carrier::{DataType, Field};
use iceberg_connector::error::{ConnectorError, CorruptData};
use iceberg_connector::text::{equal_ignoring_case, integer_to_string, parse_i32, parse_u64};
use iceberg_connector::value::is_text_before;
use iceberg_connector::variant::{
    collapse_variant_struct_to_largebinary, frame_variant, is_binary_like, is_variant_struct_data_type,
    variant_columns, VariantRow,
};

fn carrier(name: &str, data_type: DataType) -> Field {
    Field { name: name.to_string(), data_type, nullable: true, field_id: None, initial_default: None, json: false, metadata: Vec::new() }
}

#[test]
fn a_variant_is_a_struct_of_metadata_and_value() {
    let variant = |names: &[&str]| {
        DataType::Struct(names.iter().map(|name| carrier(name, DataType::Binary)).collect())
    };
    assert!(is_variant_struct_data_type(&variant(&["metadata", "value"])));
    assert!(!is_variant_struct_data_type(&variant(&["metadata"])));
    assert!(!is_variant_struct_data_type(&variant(&["metadata", "value", "extra"])));
    assert!(!is_variant_struct_data_type(&DataType::Binary));
    assert!(is_binary_like(&DataType::BinaryView));
    assert!(!is_binary_like(&DataType::Utf8));

    let fields = vec![carrier("value", DataType::Binary), carrier("metadata", DataType::Binary)];
    assert_eq!(variant_columns(&fields), Ok((1, 0)));
    assert_eq!(
        variant_columns(&vec![carrier("value", DataType::Binary)]),
        Err(ConnectorError::Corrupt(CorruptData::VariantWithoutMetadata))
    );
    assert_eq!(
        variant_columns(&vec![carrier("metadata", DataType::Binary)]),
        Err(ConnectorError::Corrupt(CorruptData::VariantWithoutValue))
    );
}

#[test]
fn a_variant_frame_keeps_both_parts() {
    let framed = frame_variant(&vec![1, 2, 3], &vec![9]).expect("framed");
    assert_eq!(framed, vec![4, 0, 0, 0, 1, 2, 3, 9]);
    let rows = vec![
        VariantRow { is_null: false, metadata: Some(vec![1]), value: Some(vec![2]) },
        VariantRow { is_null: true, metadata: None, value: None },
    ];
    assert_eq!(
        collapse_variant_struct_to_largebinary(&rows),
        Ok(vec![Some(vec![2, 0, 0, 0, 1, 2]), None])
    );
    let broken = vec![VariantRow { is_null: false, metadata: Some(vec![1]), value: None }];
    assert_eq!(
        collapse_variant_struct_to_largebinary(&broken),
        Err(ConnectorError::Corrupt(CorruptData::VariantRowIncomplete))
    );
}

#[test]
fn decimal_texts_are_read_as_they_are_written() {
    for value in [0, 7, -7, i32::MAX, i32::MIN] {
        assert_eq!(parse_i32(integer_to_string(value as i64).as_str()), Some(value));
    }
    assert_eq!(parse_i32("2147483648"), None);
    assert_eq!(parse_i32(""), None);
    assert_eq!(parse_i32("-"), None);
    assert_eq!(parse_u64("18446744073709551615"), Some(u64::MAX));
    assert_eq!(parse_u64("18446744073709551616"), None);
    assert_eq!(parse_u64("+5"), Some(5));
    assert_eq!(parse_u64("5x"), None);
    assert_eq!(integer_to_string(i64::MIN), "-9223372036854775808");
}

#[test]
fn texts_are_ordered_and_compared() {
    assert!(is_text_before("a", "b"));
    assert!(is_text_before("a", "ab"));
    assert!(!is_text_before("b", "a"));
    assert!(!is_text_before("a", "a"));
    assert!(equal_ignoring_case("File_Path", "file_path"));
    assert!(!equal_ignoring_case("pos", "position"));
}
